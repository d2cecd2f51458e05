use liven::error::LivenError;
use liven::mutation::{
    check_pipeline_stream, dedup_keys, json_to_datavalue, merge_update, pipeline_target, plan_clear, plan_delete_key,
    plan_insert, plan_insert_batch, plan_update, plan_upsert, plan_upsert_batch, status_record, MutationStep,
};
use liven::storage::index::{compound_key, KeyIndex};
use liven::types::{DataValue, JsonValue, LogPointer, PipelineStage};

fn s(x: &str) -> String {
    x.to_string()
}

fn index_with(keys: &[(&str, &str)]) -> KeyIndex {
    let mut idx = KeyIndex::new();
    for (st, k) in keys {
        idx.record_write(compound_key(st, k), Some(LogPointer { segment_id: 1, file_offset: 0 }));
    }
    idx
}

fn describe(steps: &[MutationStep]) -> Vec<String> {
    steps
        .iter()
        .map(|st| match st {
            MutationStep::Append { key, .. } => format!("append {}", key),
            MutationStep::Tombstone { key } => format!("tombstone {}", key),
            MutationStep::Rewrite { key, .. } => format!("rewrite {}", key),
            MutationStep::TombstoneKeys { keys } => format!("tombstones {}", keys.join(",")),
        })
        .collect()
}

#[test]
fn insert_refuses_long_and_existing_keys() {
    let idx = index_with(&[("users", "u1")]);
    let long = "k".repeat(33);
    match plan_insert(&s("users"), long.clone(), JsonValue::Null, &idx) {
        Err(LivenError::KeyTooLong { len, key }) => {
            assert_eq!(len, 33);
            assert_eq!(key, long);
        }
        _ => panic!("a 33-byte key is refused"),
    }
    match plan_insert(&s("users"), s("u1"), JsonValue::Null, &idx) {
        Err(LivenError::Query(m)) => assert_eq!(
            m,
            "Key 'u1' already exists in stream 'users'.\n   Use upsert to overwrite an existing key or\n   update to merge changes into an existing record."
        ),
        _ => panic!("an existing key is refused"),
    }
    let steps = plan_insert(&s("users"), s("u2"), JsonValue::Int(3), &idx).unwrap();
    assert_eq!(describe(&steps), vec!["append u2"]);
    // the same key in another stream is new
    assert!(plan_insert(&s("orders"), s("u1"), JsonValue::Null, &idx).is_ok());
}

#[test]
fn insert_batch_checks_every_key_first() {
    let idx = index_with(&[("s", "b")]);
    let batch = vec![(s("a"), JsonValue::Null), (s("b"), JsonValue::Null), (s("c"), JsonValue::Null)];
    match plan_insert_batch(&s("s"), batch, &idx) {
        Err(LivenError::Query(m)) => assert_eq!(m, "Key 'b' already exists in stream 's' (batch insertion aborted)"),
        _ => panic!("an existing key aborts the batch"),
    }
    let batch = vec![(s("a"), JsonValue::Null), (s("b").repeat(40), JsonValue::Null), (s("b"), JsonValue::Null)];
    assert!(matches!(plan_insert_batch(&s("s"), batch, &idx), Err(LivenError::KeyTooLong { len: 40, .. })));
    let batch = vec![(s("x"), JsonValue::Null), (s("x"), JsonValue::Int(1))];
    let steps = plan_insert_batch(&s("s"), batch, &idx).unwrap();
    assert_eq!(describe(&steps), vec!["append x", "append x"]);
}

#[test]
fn upserts_tombstone_stored_and_repeated_keys() {
    let idx = index_with(&[("s", "a")]);
    let steps = plan_upsert(&s("s"), s("a"), JsonValue::Null, &idx).unwrap();
    assert_eq!(describe(&steps), vec!["tombstone a", "append a"]);
    let steps = plan_upsert(&s("s"), s("n"), JsonValue::Null, &idx).unwrap();
    assert_eq!(describe(&steps), vec!["append n"]);
    let batch = vec![(s("a"), JsonValue::Null), (s("n"), JsonValue::Null), (s("n"), JsonValue::Null)];
    let steps = plan_upsert_batch(&s("s"), batch, &idx).unwrap();
    assert_eq!(describe(&steps), vec!["tombstone a", "append a", "append n", "tombstone n", "append n"]);
}

#[test]
fn update_and_delete_need_a_known_stream() {
    let idx = index_with(&[("s", "a")]);
    let streams = vec![s("s")];
    match plan_update(&s("t"), s("a"), JsonValue::Null, &idx, &streams) {
        Err(LivenError::Query(m)) => assert_eq!(m, "Stream 't' does not exist"),
        _ => panic!("an unknown stream is refused"),
    }
    let (steps, n) = plan_update(&s("s"), s("a"), JsonValue::Null, &idx, &streams).unwrap();
    assert_eq!(n, 1);
    assert_eq!(describe(&steps), vec!["tombstone a", "rewrite a"]);
    let (steps, n) = plan_update(&s("s"), s("zz"), JsonValue::Null, &idx, &streams).unwrap();
    assert_eq!((steps.len(), n), (0, 0));
    let (steps, n) = plan_delete_key(&s("s"), s("a"), &idx, &streams).unwrap();
    assert_eq!(n, 1);
    assert_eq!(describe(&steps), vec!["tombstones a"]);
    let (steps, n) = plan_delete_key(&s("s"), s("b"), &idx, &streams).unwrap();
    assert_eq!((steps.len(), n), (0, 0));
}

#[test]
fn clearing_a_stream_tombstones_all_its_keys() {
    let idx = index_with(&[("s", "b"), ("s", "a"), ("t", "c")]);
    let streams = vec![s("s"), s("t"), s("u")];
    let (steps, n) = plan_clear(&s("s"), &idx, &streams).unwrap();
    assert_eq!(n, 2);
    assert_eq!(describe(&steps), vec!["tombstones a,b"]);
    let (steps, n) = plan_clear(&s("u"), &idx, &streams).unwrap();
    assert_eq!((steps.len(), n), (0, 0));
    assert!(matches!(plan_clear(&s("v"), &idx, &streams), Err(LivenError::Query(_))));
}

#[test]
fn status_record_reports_affected_rows() {
    let r = status_record(s("s"), 3, 99);
    assert_eq!(r.sequence_id, 1);
    assert_eq!(r.flags, 1);
    assert_eq!(r.key.as_str(), "status");
    assert_eq!(r.value, DataValue::String(s("{\"status\": \"success\", \"affected_rows\": 3}")));
}

#[test]
fn pipelines_check_their_stream() {
    let streams = vec![s("s")];
    let stages = vec![PipelineStage::From { stream_name: s("x") }, PipelineStage::Count];
    match check_pipeline_stream(&stages, &streams) {
        Err(LivenError::Query(m)) => assert_eq!(m, "Stream 'x' does not exist"),
        _ => panic!("an unknown stream is refused"),
    }
    assert!(check_pipeline_stream(&[PipelineStage::Count], &streams).is_ok());
    match pipeline_target(&[PipelineStage::Count], &streams) {
        Err(LivenError::Query(m)) => assert_eq!(m, "Pipeline query must start with a from() stage"),
        _ => panic!("a pipeline without from is refused"),
    }
    assert_eq!(pipeline_target(&[PipelineStage::From { stream_name: s("s") }], &streams).unwrap(), "s");
}

#[test]
fn dedup_keeps_first_occurrences() {
    assert_eq!(dedup_keys(vec![s("b"), s("a"), s("b"), s("c"), s("a")]), vec![s("b"), s("a"), s("c")]);
}

#[test]
fn merge_sets_update_fields_on_objects() {
    let cur = JsonValue::Object(vec![(s("a"), JsonValue::Int(1)), (s("c"), JsonValue::Int(3))]);
    let up = JsonValue::Object(vec![(s("b"), JsonValue::Int(2)), (s("c"), JsonValue::Int(4))]);
    assert_eq!(
        merge_update(cur, up),
        JsonValue::Object(vec![(s("a"), JsonValue::Int(1)), (s("b"), JsonValue::Int(2)), (s("c"), JsonValue::Int(4))])
    );
    assert_eq!(merge_update(JsonValue::Int(1), JsonValue::Int(2)), JsonValue::Int(2));
    assert_eq!(merge_update(JsonValue::Object(vec![]), JsonValue::Int(2)), JsonValue::Int(2));
}

#[test]
fn json_values_convert_to_stored_values() {
    assert_eq!(json_to_datavalue(&JsonValue::UInt(5)), DataValue::Int(5));
    assert_eq!(json_to_datavalue(&JsonValue::UInt(u64::MAX)), DataValue::UInt(u64::MAX));
    assert_eq!(json_to_datavalue(&JsonValue::Float(s("1.5"))), DataValue::Float(s("1.5")));
    assert_eq!(json_to_datavalue(&JsonValue::Float(s("-inf"))), DataValue::Null);
    assert_eq!(
        json_to_datavalue(&JsonValue::Array(vec![JsonValue::Bool(true), JsonValue::String(s("x"))])),
        DataValue::Array(vec![DataValue::Bool(true), DataValue::String(s("x"))])
    );
    assert_eq!(
        json_to_datavalue(&JsonValue::Object(vec![(s("k"), JsonValue::String(s("v")))])),
        DataValue::String(s("{\"k\":\"v\"}"))
    );
}
