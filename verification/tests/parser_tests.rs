use liven::parser::{parse_pipeline, parse_pipeline_outcome, PipelineOutcome};
use liven::types::{AggregateStrategy, DataValue, ExportFormat, FilterExpr, Op, PipelineStage};

fn simple(field: &str, op: Op, value: DataValue) -> FilterExpr {
    FilterExpr::Simple { field: field.to_string(), operator: op, value }
}

#[test]
fn pipeline_of_three_stages() {
    let stages = parse_pipeline("from(\"logs\") | filter(status == \"error\") | limit(10)").unwrap();
    assert_eq!(
        stages,
        vec![
            PipelineStage::From { stream_name: "logs".to_string() },
            PipelineStage::Filter { expr: simple("status", Op::Eq, DataValue::String("error".to_string())) },
            PipelineStage::Limit { count: 10 },
        ]
    );
}

#[test]
fn empty_pipeline_has_no_stages() {
    assert_eq!(parse_pipeline("   ").unwrap(), vec![]);
}

#[test]
fn trailing_pipe_is_refused() {
    assert_eq!(
        parse_pipeline("from(a) |").unwrap_err(),
        "Empty pipeline stage or trailing/consecutive pipe '|'"
    );
    assert_eq!(
        parse_pipeline("from(a) || limit(1)").unwrap_err(),
        "Empty pipeline stage or trailing/consecutive pipe '|'"
    );
}

#[test]
fn trailing_text_in_a_stage_is_refused() {
    assert_eq!(
        parse_pipeline("limit(10) x").unwrap_err(),
        "Unexpected trailing characters 'x' in stage 'limit(10) x'"
    );
}

#[test]
fn unknown_stage_reports_the_last_form_error() {
    assert_eq!(
        parse_pipeline("bogus").unwrap_err(),
        "Parse error in stage 'bogus': Error(Error { input: \"bogus\", code: Tag })"
    );
    assert_eq!(
        parse_pipeline("group(x").unwrap_err(),
        "Parse error in stage 'group(x': Error(Error { input: \"\", code: Char })"
    );
    assert_eq!(
        parse_pipeline("group(1)").unwrap_err(),
        "Parse error in stage 'group(1)': Error(Error { input: \"1)\", code: TakeWhile1 })"
    );
}

#[test]
fn window_strategy_ignores_case() {
    assert_eq!(
        parse_pipeline("window(1000, AVG)").unwrap(),
        vec![PipelineStage::Window { duration_ms: 1000, strategy: AggregateStrategy::Average }]
    );
    assert_eq!(
        parse_pipeline("window( 5 , count )").unwrap(),
        vec![PipelineStage::Window { duration_ms: 5, strategy: AggregateStrategy::Count }]
    );
    assert!(parse_pipeline("window(5, median)").is_err());
}

#[test]
fn sort_page_count_and_friends() {
    let stages = parse_pipeline(
        "sort(ts, desc) | page(2, 10) | page(cursor(\"k1\"), 5) | count() | delete | trash() | map(a, \"b\") | export(CSV) | enrich(users, id) | get(key1)",
    )
    .unwrap();
    assert_eq!(
        stages,
        vec![
            PipelineStage::Sort { field: "ts".to_string(), descending: true },
            PipelineStage::Page { page_number: 2, page_size: 10 },
            PipelineStage::PageCursor { cursor: "k1".to_string(), page_size: 5 },
            PipelineStage::Count,
            PipelineStage::Delete,
            PipelineStage::Trash,
            PipelineStage::MapFields { projections: vec!["a".to_string(), "b".to_string()] },
            PipelineStage::Export { format: ExportFormat::Csv },
            PipelineStage::Enrich { source_stream: "users".to_string(), join_key: "id".to_string() },
            PipelineStage::Get { key: "key1".to_string() },
        ]
    );
}

#[test]
fn group_with_aggregations() {
    assert_eq!(
        parse_pipeline("group(region, count(), sum(amount))").unwrap(),
        vec![PipelineStage::Group {
            field: "region".to_string(),
            aggregations: vec!["count()".to_string(), "sum(amount)".to_string()],
        }]
    );
}

#[test]
fn vector_filter_quantizes_its_query() {
    assert_eq!(
        parse_pipeline("vector_filter(emb, [1, -2, 3.7, 300], 0.8)").unwrap(),
        vec![PipelineStage::VectorFilter {
            field: "emb".to_string(),
            query_vector: vec![1, -2, 3, 44],
            threshold: "0.8".to_string(),
        }]
    );
    assert_eq!(
        parse_pipeline("vector_filter(emb, [1], 2)").unwrap(),
        vec![PipelineStage::VectorFilter {
            field: "emb".to_string(),
            query_vector: vec![1],
            threshold: "2".to_string(),
        }]
    );
}

#[test]
fn filters_group_and_before_or() {
    let stages = parse_pipeline("filter(a == 1 and b != -2 or c >= 1.5)").unwrap();
    let expected = FilterExpr::Or {
        left: Box::new(FilterExpr::And {
            left: Box::new(simple("a", Op::Eq, DataValue::UInt(1))),
            right: Box::new(simple("b", Op::NotEq, DataValue::Int(-2))),
        }),
        right: Box::new(simple("c", Op::GtEq, DataValue::Float("1.5".to_string()))),
    };
    assert_eq!(stages, vec![PipelineStage::Filter { expr: expected }]);
}

#[test]
fn filter_values_of_every_kind() {
    let stages = parse_pipeline("filter(x in [1, \"a\", null, true] and (y startsWith \"ab\"))").unwrap();
    let expected = FilterExpr::And {
        left: Box::new(simple(
            "x",
            Op::In,
            DataValue::Array(vec![
                DataValue::UInt(1),
                DataValue::String("a".to_string()),
                DataValue::Null,
                DataValue::Bool(true),
            ]),
        )),
        right: Box::new(simple("y", Op::StartsWith, DataValue::String("ab".to_string()))),
    };
    assert_eq!(stages, vec![PipelineStage::Filter { expr: expected }]);
}

#[test]
fn oversized_numbers_stop_the_engine() {
    assert!(matches!(parse_pipeline_outcome("limit(99999999999999999999999)"), PipelineOutcome::Stops));
    assert!(matches!(parse_pipeline_outcome("filter(x == -9999999999999999999)"), PipelineOutcome::Stops));
    assert!(matches!(parse_pipeline_outcome("limit(3)"), PipelineOutcome::Stages(_)));
}
