use liven::executor::SequenceMatcher;
use liven::filter::{evaluate_record_field, extract_field, filter_leaf_values, filter_record, text_match_exec};
use liven::join::{
    chain_key, correlate_records, distinct_records, distinct_text, join_text, nested_join_key, JoinSide,
};
use liven::storage::key::StreamKey;
use liven::types::{DataValue, FilterExpr, JsonValue, Op, Record};

fn rec(seq: u64, ts: i64, key: &str, value: DataValue) -> Record {
    Record {
        sequence_id: seq,
        timestamp: ts,
        type_tag: 3,
        flags: 1,
        stream_name: "logs".to_string(),
        key: StreamKey::from_str(key).unwrap(),
        value,
    }
}

fn simple(field: &str, op: Op, value: DataValue) -> FilterExpr {
    FilterExpr::Simple { field: field.to_string(), operator: op, value }
}

#[test]
fn record_fields_and_stored_documents() {
    let r = rec(7, 100, "k1", DataValue::String("{\"a\":1,\"b\":\"x\",\"c\":[1,2],\"d\":2.5,\"e\":null}".to_string()));
    assert_eq!(evaluate_record_field(&r, "key"), Some(DataValue::String("k1".to_string())));
    assert_eq!(evaluate_record_field(&r, "timestamp"), Some(DataValue::Int(100)));
    assert_eq!(evaluate_record_field(&r, "sequence_id"), Some(DataValue::UInt(7)));
    assert_eq!(evaluate_record_field(&r, "stream"), Some(DataValue::String("logs".to_string())));
    assert_eq!(evaluate_record_field(&r, "a"), Some(DataValue::Int(1)));
    assert_eq!(evaluate_record_field(&r, "b"), Some(DataValue::String("x".to_string())));
    assert_eq!(evaluate_record_field(&r, "c"), Some(DataValue::String("[1,2]".to_string())));
    assert_eq!(evaluate_record_field(&r, "d"), Some(DataValue::Float("2.5".to_string())));
    assert_eq!(evaluate_record_field(&r, "e"), Some(DataValue::Null));
    assert_eq!(evaluate_record_field(&r, "zz"), None);
    assert_eq!(extract_field(&DataValue::String("not json".to_string()), "a"), None);
    assert_eq!(extract_field(&DataValue::Int(3), "a"), None);
    let doc: serde_json::Value = serde_json::from_str("{\"n\":5}").unwrap();
    let packed = rmp_serde::to_vec(&doc).unwrap();
    assert_eq!(extract_field(&DataValue::Binary(packed), "n"), Some(DataValue::Int(5)));
}

#[test]
fn text_operators_match_substrings() {
    let s = |t: &str| DataValue::String(t.to_string());
    assert!(text_match_exec(&s("hello world"), Op::Contains, &s("lo w")));
    assert!(!text_match_exec(&s("hello"), Op::Contains, &s("xyz")));
    assert!(text_match_exec(&s("hello"), Op::StartsWith, &s("he")));
    assert!(!text_match_exec(&s("hello"), Op::StartsWith, &s("lo")));
    assert!(text_match_exec(&s("hello"), Op::EndsWith, &s("llo")));
    assert!(text_match_exec(&s("héllo"), Op::Contains, &s("él")));
    assert!(!text_match_exec(&DataValue::Int(1), Op::Contains, &s("1")));
}

#[test]
fn filters_combine_text_operators_and_given_comparisons() {
    let r = rec(1, 5, "k", DataValue::String("{\"msg\":\"disk full\",\"level\":3}".to_string()));
    let f = FilterExpr::And {
        left: Box::new(simple("msg", Op::Contains, DataValue::String("full".to_string()))),
        right: Box::new(FilterExpr::Not { expr: Box::new(simple("level", Op::Gt, DataValue::Int(5))) }),
    };
    let leaves = filter_leaf_values(&r, &f);
    assert_eq!(leaves, vec![Some(DataValue::String("disk full".to_string())), Some(DataValue::Int(3))]);
    assert!(filter_record(&r, &f, &vec![false, false]));
    assert!(!filter_record(&r, &f, &vec![false, true]));
    let missing = simple("nope", Op::Eq, DataValue::Int(1));
    assert!(!filter_record(&r, &missing, &vec![true]));
    let or = FilterExpr::Or {
        left: Box::new(simple("msg", Op::StartsWith, DataValue::String("cpu".to_string()))),
        right: Box::new(simple("level", Op::Eq, DataValue::Int(3))),
    };
    assert!(filter_record(&r, &or, &vec![false, true]));
    assert!(!filter_record(&r, &or, &vec![false, false]));
}

fn side(key: Option<&str>, ts: i64, doc: JsonValue) -> JoinSide {
    JoinSide { key: key.map(|k| k.to_string()), timestamp: ts, doc }
}

fn obj(entries: Vec<(&str, JsonValue)>) -> JsonValue {
    JsonValue::Object(entries.into_iter().map(|(k, v)| (k.to_string(), v)).collect())
}

#[test]
fn correlation_joins_keys_within_the_window() {
    let records = vec![
        side(Some("u1"), 100, obj(vec![("a", JsonValue::Int(1))])),
        side(Some("u2"), 100, obj(vec![])),
        side(None, 100, obj(vec![])),
        side(Some("u1"), 1000, JsonValue::Int(9)),
    ];
    let sources = vec![
        side(Some("u1"), 90, JsonValue::String("s1".to_string())),
        side(Some("u1"), 111, JsonValue::String("s2".to_string())),
        side(Some("u2"), 500, JsonValue::String("s3".to_string())),
        side(Some("u1"), 1005, JsonValue::String("s4".to_string())),
    ];
    let out = correlate_records(&records, &sources, 10);
    assert_eq!(out.len(), 2);
    assert_eq!(out[0].0, 0);
    assert_eq!(
        out[0].1,
        obj(vec![
            ("a", JsonValue::Int(1)),
            ("correlated_1", JsonValue::String("s1".to_string())),
            ("correlated_count", JsonValue::Int(1)),
        ])
    );
    assert_eq!(out[1].0, 3);
    assert_eq!(out[1].1, JsonValue::Int(9));
}

#[test]
fn chain_keys_and_join_texts() {
    assert_eq!(join_text(&DataValue::String("a".to_string())), Some("a".to_string()));
    assert_eq!(join_text(&DataValue::Int(-4)), Some("-4".to_string()));
    assert_eq!(join_text(&DataValue::UInt(12)), Some("12".to_string()));
    assert_eq!(join_text(&DataValue::Bool(true)), None);
    let doc = obj(vec![
        ("a", JsonValue::Int(1)),
        ("orders", obj(vec![("user", JsonValue::Int(42))])),
        ("users", obj(vec![("user", JsonValue::String("x".to_string()))])),
    ]);
    assert_eq!(nested_join_key(&doc, "user"), Some("42".to_string()));
    assert_eq!(nested_join_key(&doc, "nope"), None);
    assert_eq!(nested_join_key(&JsonValue::Int(1), "user"), None);
}

#[test]
fn chain_follows_the_field_text_before_the_nested_key() {
    let doc = Some(obj(vec![("orders", obj(vec![("user", JsonValue::Int(7))]))]));
    assert_eq!(chain_key(Some("u1".to_string()), &doc, "user"), Some("u1".to_string()));
    assert_eq!(chain_key(None, &doc, "user"), Some("7".to_string()));
    assert_eq!(chain_key(None, &None, "user"), None);
    assert_eq!(chain_key(None, &Some(JsonValue::Bool(true)), "user"), None);
}

#[test]
fn distinct_keeps_first_of_each_text() {
    let records = vec![
        rec(1, 1, "a", DataValue::Null),
        rec(2, 2, "b", DataValue::Null),
        rec(3, 3, "c", DataValue::Null),
        rec(4, 4, "d", DataValue::Null),
    ];
    let texts = vec!["x".to_string(), "y".to_string(), "x".to_string(), "z".to_string()];
    let kept: Vec<u64> = distinct_records(records, &texts).iter().map(|r| r.sequence_id).collect();
    assert_eq!(kept, vec![1, 2, 4]);
    assert_eq!(distinct_text(&None), Some(String::new()));
    assert_eq!(distinct_text(&Some(DataValue::Bool(false))), Some("false".to_string()));
    assert_eq!(distinct_text(&Some(DataValue::Int(7))), Some("7".to_string()));
    assert_eq!(distinct_text(&Some(DataValue::Float("1.5".to_string()))), None);
}

#[test]
fn one_step_sequences_return_the_matching_record() {
    let mut m = SequenceMatcher::new(vec![simple("key", Op::Eq, DataValue::String("a".to_string()))], 100);
    let done = m.process(rec(9, 10, "a", DataValue::Null), true, true);
    assert_eq!(done.map(|r| r.sequence_id), Some(9));
    assert_eq!(m.current_step(), 0);
    assert!(m.process(rec(10, 20, "b", DataValue::Null), false, false).is_none());
}

#[test]
fn projections_and_enrichment() {
    use_projection();
}

fn use_projection() {
    let r = rec(5, 42, "k1", DataValue::String("{\"a\":1}".to_string()));
    let source = Some(obj(vec![("a", JsonValue::Int(1))]));
    let value_doc = obj(vec![("a", JsonValue::Int(1))]);
    let ps = vec!["stream".to_string(), "a".to_string(), "missing".to_string(), "key".to_string(), "sequence_id".to_string()];
    let doc = liven::join::project_doc(&r, &source, &value_doc, &ps);
    assert_eq!(
        doc,
        obj(vec![
            ("a", JsonValue::Int(1)),
            ("key", JsonValue::String("k1".to_string())),
            ("sequence_id", JsonValue::Int(5)),
            ("stream", JsonValue::String("logs".to_string())),
        ])
    );
    let doc = liven::join::project_doc(&r, &None, &JsonValue::Int(3), &vec!["value".to_string(), "timestamp".to_string()]);
    assert_eq!(doc, obj(vec![("timestamp", JsonValue::Int(42)), ("value", JsonValue::Int(3))]));
    let merged = liven::join::enrichment(obj(vec![("a", JsonValue::Int(1))]), obj(vec![("a", JsonValue::Int(2)), ("b", JsonValue::Bool(true))]));
    assert_eq!(merged, liven::join::Enrichment::Merged(obj(vec![("a", JsonValue::Int(2)), ("b", JsonValue::Bool(true))])));
    assert_eq!(liven::join::enrichment(JsonValue::Null, obj(vec![])), liven::join::Enrichment::TakeOther);
    assert_eq!(liven::join::enrichment(JsonValue::Int(1), obj(vec![])), liven::join::Enrichment::Unchanged);
}

#[test]
fn sequences_over_sorted_records() {
    let records = vec![
        rec(1, 30, "b", DataValue::Null),
        rec(2, 10, "a", DataValue::Null),
        rec(3, 30, "c", DataValue::Null),
        rec(4, 20, "x", DataValue::Null),
    ];
    let sorted = liven::sequence::sort_by_timestamp(records);
    let order: Vec<u64> = sorted.iter().map(|r| r.sequence_id).collect();
    assert_eq!(order, vec![2, 4, 1, 3]);
    let steps = vec![
        simple("key", Op::Eq, DataValue::String("a".to_string())),
        simple("key", Op::Eq, DataValue::String("b".to_string())),
    ];
    let outcomes = vec![vec![true, false], vec![false, false], vec![false, true], vec![false, false]];
    let found = liven::sequence::sequence_matches(sorted, steps, 100, &outcomes).unwrap();
    let ids: Vec<u64> = found.iter().map(|r| r.sequence_id).collect();
    assert_eq!(ids, vec![1]);
}

#[test]
fn groups_by_text_in_bytewise_order() {
    let records = vec![
        rec(1, 1, "a", DataValue::Null),
        rec(2, 2, "b", DataValue::Null),
        rec(3, 3, "c", DataValue::Null),
        rec(4, 4, "d", DataValue::Null),
    ];
    let texts = vec!["pear".to_string(), "Apple".to_string(), "pear".to_string(), "apple".to_string()];
    let groups = liven::group::group_by_text(records, &texts);
    let shape: Vec<(String, Vec<u64>)> =
        groups.iter().map(|(k, rs)| (k.clone(), rs.iter().map(|r| r.sequence_id).collect())).collect();
    assert_eq!(
        shape,
        vec![
            ("Apple".to_string(), vec![2]),
            ("apple".to_string(), vec![4]),
            ("pear".to_string(), vec![1, 3]),
        ]
    );
}
