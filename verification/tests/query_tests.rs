use liven::query_parser::{find_outer_comma, parse_query, parse_query_outcome, QueryOutcome};
use liven::executor::merge_joined;
use liven::types::{DataValue, FilterExpr, JsonValue, Op, PipelineStage, Query};

fn s(x: &str) -> String {
    x.to_string()
}

#[test]
fn bare_commands() {
    assert_eq!(parse_query("streams").unwrap(), Query::ListStreams);
    assert_eq!(parse_query("streams(  )").unwrap(), Query::ListStreams);
    assert_eq!(parse_query(" status() ").unwrap(), Query::Status);
    assert_eq!(parse_query("").unwrap_err(), "Empty query");
}

#[test]
fn drop_stream() {
    assert_eq!(parse_query("drop(logs)").unwrap(), Query::Drop { stream_name: s("logs") });
    assert_eq!(parse_query("drop( \"logs\" )").unwrap(), Query::Drop { stream_name: s("logs") });
    assert_eq!(
        parse_query("drop(logs) now").unwrap_err(),
        "Unexpected trailing characters after drop: 'now'"
    );
}

#[test]
fn insert_with_object_value() {
    let q = parse_query("from(users).insert(\"u1\", {\"name\": \"Ann\", age: 3})").unwrap();
    assert_eq!(
        q,
        Query::Insert {
            stream_name: s("users"),
            key: s("u1"),
            value: JsonValue::Object(vec![
                (s("age"), JsonValue::UInt(3)),
                (s("name"), JsonValue::String(s("Ann"))),
            ]),
        }
    );
}

#[test]
fn object_keys_keep_the_last_value() {
    let q = parse_query("from(t).upsert(k, {b: 1, a: 2, b: 3})").unwrap();
    assert_eq!(
        q,
        Query::Upsert {
            stream_name: s("t"),
            key: s("k"),
            value: JsonValue::Object(vec![(s("a"), JsonValue::UInt(2)), (s("b"), JsonValue::UInt(3))]),
        }
    );
}

#[test]
fn insert_batch_of_pairs() {
    let q = parse_query("from(users).insert([[\"k1\", 1], [2, true], [\"skip\"]])").unwrap();
    assert_eq!(
        q,
        Query::InsertBatch {
            stream_name: s("users"),
            batch: vec![(s("k1"), JsonValue::UInt(1)), (s("2"), JsonValue::Bool(true))],
        }
    );
}

#[test]
fn bare_tokens_are_classified() {
    let q = parse_query("from(t).insert(k, hello world)").unwrap();
    assert_eq!(q, Query::Insert { stream_name: s("t"), key: s("k"), value: JsonValue::String(s("hello world")) });
    let q = parse_query("from(t).insert(k, +5)").unwrap();
    assert_eq!(q, Query::Insert { stream_name: s("t"), key: s("k"), value: JsonValue::Int(5) });
    let q = parse_query("from(t).insert(k, .5e3)").unwrap();
    assert_eq!(q, Query::Insert { stream_name: s("t"), key: s("k"), value: JsonValue::Float(s(".5e3")) });
}

#[test]
fn delete_forms() {
    assert_eq!(
        parse_query("from(users).delete(\"u1\")").unwrap(),
        Query::DeleteKey { stream_name: s("users"), key: s("u1") }
    );
    let q = parse_query("from(users) | filter(a == 1).delete()").unwrap();
    assert_eq!(
        q,
        Query::PipelineDelete {
            pipeline: vec![
                PipelineStage::From { stream_name: s("users") },
                PipelineStage::Filter {
                    expr: FilterExpr::Simple { field: s("a"), operator: Op::Eq, value: DataValue::UInt(1) },
                },
            ],
        }
    );
}

#[test]
fn empty_needs_a_single_from() {
    assert_eq!(parse_query("from(users).empty()").unwrap(), Query::Empty { stream_name: s("users") });
    assert_eq!(
        parse_query("from(a) | limit(1).empty()").unwrap_err(),
        "Empty action must be applied directly to from(stream)"
    );
    assert_eq!(
        parse_query("from(a) | limit(1).insert(k, 1)").unwrap_err(),
        "Insert action must be applied directly to from(stream)"
    );
}

#[test]
fn update_forms() {
    assert_eq!(
        parse_query("from(users).update(u1, {x: 1})").unwrap(),
        Query::Update {
            stream_name: s("users"),
            key: s("u1"),
            value: JsonValue::Object(vec![(s("x"), JsonValue::UInt(1))]),
        }
    );
    assert_eq!(
        parse_query("from(users) | limit(2).update({x: 2})").unwrap(),
        Query::PipelineUpdate {
            pipeline: vec![PipelineStage::From { stream_name: s("users") }, PipelineStage::Limit { count: 2 }],
            update_value: JsonValue::Object(vec![(s("x"), JsonValue::UInt(2))]),
        }
    );
}

#[test]
fn plain_pipeline_query() {
    assert_eq!(
        parse_query("from(a) | count").unwrap(),
        Query::Pipeline(vec![PipelineStage::From { stream_name: s("a") }, PipelineStage::Count])
    );
}

#[test]
fn action_dot_inside_a_multibyte_prefix_stops() {
    // The action's character index lands inside a two-byte character.
    assert!(matches!(parse_query_outcome("from(éé).empty()"), QueryOutcome::Stops));
}

#[test]
fn outer_comma_byte_offsets() {
    assert_eq!(find_outer_comma("a, b"), Some(1));
    assert_eq!(find_outer_comma("[1,2], 3"), Some(5));
    assert_eq!(find_outer_comma("\"x,y\", z"), Some(5));
    assert_eq!(find_outer_comma("é,b"), Some(2));
    assert_eq!(find_outer_comma("{a: 1, b: 2}"), None);
}

#[test]
fn merge_joined_sets_target_under_stream_name() {
    let source = JsonValue::Object(vec![("a".to_string(), JsonValue::Int(1))]);
    let target = JsonValue::Object(vec![("b".to_string(), JsonValue::Int(2))]);
    let r = merge_joined(source, target, "orders".to_string());
    let expected_target = JsonValue::Object(vec![("b".to_string(), JsonValue::Int(2))]);
    assert_eq!(
        r,
        JsonValue::Object(vec![("a".to_string(), JsonValue::Int(1)), ("orders".to_string(), expected_target)])
    );
}

#[test]
fn merge_joined_wraps_non_object_source() {
    let r = merge_joined(JsonValue::Int(5), JsonValue::Bool(true), "orders".to_string());
    assert_eq!(
        r,
        JsonValue::Object(vec![
            ("orders".to_string(), JsonValue::Bool(true)),
            ("value".to_string(), JsonValue::Int(5)),
        ])
    );
    let r2 = merge_joined(JsonValue::Int(5), JsonValue::Bool(true), "value".to_string());
    assert_eq!(r2, JsonValue::Object(vec![("value".to_string(), JsonValue::Bool(true))]));
}
