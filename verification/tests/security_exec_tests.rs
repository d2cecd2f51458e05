use liven::display::{build_border_line, format_cell, format_value_cell, insert_char_at, remove_char_at};
use liven::executor::{
    apply_structural_stage, extract_key_from_filter, extract_unique_key_from_pipeline, get_limit_from_stages,
    is_key_equality_filter, keep_records, page_records, validate_key_length, Selector, SequenceMatcher,
};
use liven::query::{Filter, Pipeline};
use liven::security::{
    capabilities_for_role, check_query_capabilities, hex_decode, hex_encode, CAP_DELETE, CAP_INSERT, CAP_READ,
    CAP_ROOT,
};
use liven::storage::key::StreamKey;
use liven::types::{AggregateStrategy, DataValue, FilterExpr, Op, PipelineStage, Query, Record};

fn rec(seq: u64, ts: i64, stream: &str, key: &str, flags: u8) -> Record {
    Record {
        sequence_id: seq,
        timestamp: ts,
        type_tag: 3,
        flags,
        stream_name: stream.to_string(),
        key: StreamKey::from_str(key).unwrap(),
        value: DataValue::UInt(seq),
    }
}

#[test]
fn hex_roundtrip() {
    let bytes = vec![0u8, 1, 0xab, 0xff];
    let text = hex_encode(&bytes);
    assert_eq!(text, "0001abff");
    assert_eq!(hex_decode(&text).unwrap(), bytes);
    assert_eq!(hex_decode(" 0A ").unwrap(), vec![10]);
    assert_eq!(hex_decode("abc").unwrap_err(), "Odd hex length");
    assert_eq!(hex_decode("zz").unwrap_err(), "Invalid hex character");
}

#[test]
fn role_capabilities() {
    assert_eq!(capabilities_for_role("admin"), CAP_ROOT);
    assert_eq!(capabilities_for_role("read-only"), CAP_READ);
    assert_eq!(capabilities_for_role("nobody"), 0);
}

#[test]
fn query_capabilities() {
    assert!(check_query_capabilities("from(a) | limit(1)", CAP_READ));
    assert!(!check_query_capabilities("from(a).insert(k, 1)", CAP_READ));
    assert!(check_query_capabilities("from(a).insert(k, 1)", CAP_INSERT));
    assert!(!check_query_capabilities("from(a) | delete", CAP_READ));
    assert!(check_query_capabilities("from(a) | delete", CAP_DELETE));
    assert!(!check_query_capabilities("drop(a)", CAP_READ | CAP_INSERT | CAP_DELETE));
    assert!(check_query_capabilities("drop(a)", CAP_ROOT));
    assert!(check_query_capabilities("tail(\"a\")", CAP_READ));
    assert!(!check_query_capabilities("tail('a')", 0));
    assert!(check_query_capabilities("not a query ???", 0));
}

#[test]
fn key_length_limit() {
    assert!(validate_key_length("k").is_ok());
    assert!(validate_key_length(&"k".repeat(33)).is_err());
}

#[test]
fn key_extraction_from_pipelines() {
    let f = FilterExpr::And {
        left: Box::new(FilterExpr::Simple { field: "a".into(), operator: Op::Eq, value: DataValue::UInt(1) }),
        right: Box::new(FilterExpr::Simple {
            field: "key".into(),
            operator: Op::Eq,
            value: DataValue::String("k9".into()),
        }),
    };
    assert_eq!(extract_key_from_filter(&f), Some("k9".to_string()));
    assert!(is_key_equality_filter(&f));
    let stages = vec![
        PipelineStage::From { stream_name: "s".into() },
        PipelineStage::Limit { count: 4 },
        PipelineStage::Filter { expr: f },
    ];
    assert_eq!(extract_unique_key_from_pipeline(&stages), Some("k9".to_string()));
    assert_eq!(get_limit_from_stages(&stages), Some(4));
    assert_eq!(get_limit_from_stages(&stages[..1]), None);
}

#[test]
fn selecting_and_paging_records() {
    let records = vec![rec(1, 1, "a", "k1", 1), rec(2, 2, "b", "k2", 1), rec(3, 3, "a", "k3", 2), rec(4, 4, "a", "*", 1)];
    let kept = keep_records(records, &Selector::Stream("a".into()));
    assert_eq!(kept.iter().map(|r| r.sequence_id).collect::<Vec<_>>(), vec![1, 3, 4]);
    let deleted = keep_records(kept, &Selector::Deleted);
    assert_eq!(deleted.len(), 1);

    let records = vec![rec(1, 1, "a", "k1", 1), rec(2, 2, "a", "k2", 1), rec(3, 3, "a", "k3", 1)];
    let page = page_records(records, 2, 2);
    assert_eq!(page.iter().map(|r| r.sequence_id).collect::<Vec<_>>(), vec![3]);

    let records = vec![rec(1, 1, "a", "k1", 1), rec(2, 2, "a", "k2", 1), rec(3, 3, "a", "k3", 1)];
    let after = apply_structural_stage(records, &PipelineStage::PageCursor { cursor: "k1".into(), page_size: 1 }, 0)
        .ok()
        .unwrap();
    assert_eq!(after.iter().map(|r| r.sequence_id).collect::<Vec<_>>(), vec![2]);
}

#[test]
fn count_stage_replaces_records() {
    let records = vec![rec(1, 1, "logs", "k1", 1), rec(2, 2, "logs", "k2", 1)];
    let out = apply_structural_stage(records, &PipelineStage::Count, 1234).ok().unwrap();
    assert_eq!(out.len(), 1);
    assert_eq!(out[0].value, DataValue::UInt(2));
    assert_eq!(out[0].stream_name, "logs");
    assert_eq!(out[0].key.as_str(), "count");
    assert_eq!(out[0].timestamp, 1234);
    let empty = apply_structural_stage(vec![], &PipelineStage::Count, 0).ok().unwrap();
    assert_eq!(empty[0].stream_name, "stream");
    let untouched = apply_structural_stage(vec![rec(1, 1, "a", "k", 1)], &PipelineStage::Trash, 0).ok().unwrap();
    assert!(untouched.is_empty());
    assert!(apply_structural_stage(vec![], &PipelineStage::Distinct { field: "x".into() }, 0).is_err());
}

#[test]
fn sequence_matcher_emits_the_completing_record() {
    let steps = vec![
        FilterExpr::Simple { field: "e".into(), operator: Op::Eq, value: DataValue::String("login".into()) },
        FilterExpr::Simple { field: "e".into(), operator: Op::Eq, value: DataValue::String("buy".into()) },
    ];
    let mut m = SequenceMatcher::new(steps, 100);
    assert!(m.process(rec(1, 10, "s", "a", 1), true, true).is_none());
    assert_eq!(m.current_step(), 1);
    let done = m.process(rec(2, 50, "s", "b", 1), false, true).unwrap();
    assert_eq!(done.sequence_id, 2);
    assert_eq!(m.current_step(), 0);
    // A late second event drops the attempt.
    assert!(m.process(rec(3, 10, "s", "c", 1), true, true).is_none());
    assert!(m.process(rec(4, 500, "s", "d", 1), false, true).is_none());
    assert_eq!(m.current_step(), 0);
}

#[test]
fn builders_make_the_same_stages_as_text() {
    let q = Pipeline::from("events".into())
        .filter(Filter::field("type".into()).equals("click".into()))
        .limit(50)
        .window(1000, AggregateStrategy::avg())
        .build();
    assert_eq!(
        q,
        Query::Pipeline(vec![
            PipelineStage::From { stream_name: "events".into() },
            PipelineStage::Filter {
                expr: FilterExpr::Simple {
                    field: "type".into(),
                    operator: Op::Eq,
                    value: DataValue::String("click".into()),
                },
            },
            PipelineStage::Limit { count: 50 },
            PipelineStage::Window { duration_ms: 1000, strategy: AggregateStrategy::Average },
        ])
    );
    let both = Filter::and(vec![
        Filter::field("a".into()).gt(DataValue::Int(1)),
        Filter::field("b".into()).lt(DataValue::Int(2)),
        Filter::not(Filter::field("c".into()).is_in(vec![DataValue::Null])),
    ])
    .build();
    assert!(matches!(both, FilterExpr::And { .. }));
    assert_eq!(AggregateStrategy::count(), AggregateStrategy::Count);
    assert_eq!(AggregateStrategy::sum(), AggregateStrategy::Sum);
}

#[test]
fn shell_text_helpers() {
    assert_eq!(format_cell("short"), "short");
    let long = "x".repeat(45);
    assert_eq!(format_cell(&long), format!("{}...", "x".repeat(37)));
    assert_eq!(format_value_cell(&"y".repeat(101)), format!("{}...", "y".repeat(97)));
    assert_eq!(build_border_line('┌', '┬', '┐', &[1, 2]), "┌───┬────┐");
    let mut s = String::from("abc");
    insert_char_at(&mut s, 1, 'X');
    assert_eq!(s, "aXbc");
    insert_char_at(&mut s, 99, '!');
    assert_eq!(s, "aXbc!");
    remove_char_at(&mut s, 2);
    assert_eq!(s, "abc!");
    remove_char_at(&mut s, 0);
    assert_eq!(s, "abc!");
}
