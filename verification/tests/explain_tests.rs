use liven::explain::{contains_text_exec, describe_stage, execute_explain, join_texts, plan_steps};
use liven::types::{AggregateStrategy, DataValue, FilterExpr, JsonValue, Op, PipelineStage, Query};

fn text(s: &str) -> String {
    s.to_string()
}

#[test]
fn explain_join_texts() {
    let items = vec![text("a"), text("bc"), text("d")];
    assert_eq!(join_texts(&items, ", "), "a, bc, d");
    assert_eq!(join_texts(&Vec::new(), ", "), "");
}

#[test]
fn explain_contains_text() {
    assert!(contains_text_exec("a WARNING here", "WARNING"));
    assert!(!contains_text_exec("all fine", "WARNING"));
    assert!(contains_text_exec("x", ""));
}

#[test]
fn explain_describe_from_stage() {
    let stage = PipelineStage::From { stream_name: text("users") };
    let (name, cost, note) = describe_stage(&stage, 42, "");
    assert_eq!(name, "from");
    assert_eq!(cost, "O(n)");
    assert_eq!(note, "Retain records for stream 'users'. ~42 indexed keys.");
}

#[test]
fn explain_describe_page_and_correlate() {
    let page = PipelineStage::Page { page_number: 3, page_size: 10 };
    let (_, _, note) = describe_stage(&page, 0, "");
    assert_eq!(note, "Offset page 3. Skips 20 records. Full scan still required to reach offset.");
    let corr = PipelineStage::Correlate { source_stream: text("logs"), join_key: text("uid"), within_ms: 500 };
    let (name, cost, note) = describe_stage(&corr, 0, "");
    assert_eq!(name, "correlate");
    assert_eq!(cost, "O(n * m) WARNING");
    assert!(note.starts_with("WARNING: Secondary full scan triggered for stream 'logs' on join key 'uid' within 500ms."));
}

#[test]
fn explain_describe_vector_window_group() {
    let vf = PipelineStage::VectorFilter { field: text("emb"), query_vector: vec![1, 2, 3], threshold: text("0.5") };
    let (_, cost, note) = describe_stage(&vf, 0, "0.500");
    assert_eq!(cost, "O(n * d)");
    assert_eq!(note, "Cosine similarity on field 'emb'. Query vector dim: 3. Threshold: 0.500. No index — full scan comparison.");
    let w = PipelineStage::Window { duration_ms: 1000, strategy: AggregateStrategy::Average };
    let (_, _, note) = describe_stage(&w, 0, "");
    assert_eq!(note, "Group records into 1000ms buckets. Strategy: Average. One output record per window.");
    let g = PipelineStage::Group { field: text("city"), aggregations: vec![text("count"), text("sum:amount")] };
    let (_, _, note) = describe_stage(&g, 0, "");
    assert_eq!(note, "Group by 'city'. Aggregations: count, sum:amount. Requires all records in memory.");
}

#[test]
fn explain_plan_of_pipeline_with_limit() {
    let q = Query::Pipeline(vec![PipelineStage::From { stream_name: text("users") }, PipelineStage::Limit { count: 5 }]);
    let steps = plan_steps(&q, 100, &[7, 0], &[text(""), text("")], 0);
    assert_eq!(steps.len(), 3);
    assert_eq!(steps[0].stage, "scan");
    assert_eq!(steps[0].cost, "O(n) early-exit");
    assert_eq!(steps[0].note, "Full segment scan with early exit at 5 records. Stream 'users' has ~7 indexed keys.");
    assert_eq!(steps[2].stage, "limit");
    assert_eq!(steps[2].step, 2);
}

#[test]
fn explain_plan_of_key_lookup() {
    let filter = FilterExpr::Simple { field: text("key"), operator: Op::Eq, value: DataValue::String(text("u1")) };
    let q = Query::Pipeline(vec![PipelineStage::From { stream_name: text("users") }, PipelineStage::Filter { expr: filter }]);
    let steps = plan_steps(&q, 9, &[3, 0], &[text(""), text("")], 0);
    assert_eq!(steps[0].cost, "O(log n)");
    assert_eq!(steps[0].note, "Key equality detected — uses SkipMap point lookup. Total index keys: 9");
}

#[test]
fn explain_plan_of_insert_and_empty() {
    let q = Query::Insert { stream_name: text("s"), key: text("k"), value: JsonValue::Null };
    let steps = plan_steps(&q, 0, &[], &[], 0);
    assert_eq!(steps.len(), 3);
    assert_eq!(steps[0].note, "SkipMap lookup for key 'k' in stream 's'");
    let q = Query::Empty { stream_name: text("s") };
    let steps = plan_steps(&q, 0, &[], &[], 4);
    assert_eq!(steps[0].note, "4 keys found in stream 's'");
    assert_eq!(steps[1].note, "Append 4 tombstone frames in one ring buffer call. Single sync_data.");
}

#[test]
fn explain_record_holds_plan_json() {
    let q = Query::Status;
    let r = execute_explain(&q, 1234, 0, &[], &[], 0);
    assert_eq!(r.timestamp, 1234);
    assert_eq!(r.stream_name, "explain");
    assert_eq!(r.key.as_str(), "plan");
    match r.value {
        DataValue::String(t) => assert_eq!(
            t,
            "{\"has_secondary_scan\":false,\"steps\":[{\"cost\":\"O(1)\",\"note\":\"Reads atomic counters. No disk access.\",\"stage\":\"status\",\"step\":0}],\"total_steps\":1,\"warnings\":[]}"
        ),
        _ => panic!("explain returns text"),
    }
}

#[test]
fn explain_warnings_collect_correlate() {
    let q = Query::Pipeline(vec![
        PipelineStage::From { stream_name: text("a") },
        PipelineStage::Correlate { source_stream: text("b"), join_key: text("id"), within_ms: 10 },
    ]);
    let r = execute_explain(&q, 0, 2, &[1, 0], &[text(""), text("")], 0);
    match r.value {
        DataValue::String(t) => {
            assert!(t.contains("\"has_secondary_scan\":true"));
            assert!(t.contains("\"total_steps\":3"));
            assert!(t.contains("\"warnings\":[\"WARNING: Secondary full scan"));
        }
        _ => panic!("explain returns text"),
    }
}

#[test]
fn explain_secondary_scan_flag_follows_notes() {
    let q = Query::Pipeline(vec![
        PipelineStage::From { stream_name: text("a") },
        PipelineStage::Chain { target_stream: text("b"), join_key: text("id") },
    ]);
    let r = execute_explain(&q, 0, 2, &[1, 0], &[text(""), text("")], 0);
    match r.value {
        DataValue::String(t) => {
            assert!(t.contains("\"has_secondary_scan\":false"));
            assert!(t.contains("\"warnings\":[]"));
        }
        _ => panic!("explain returns text"),
    }
    let q = Query::Pipeline(vec![
        PipelineStage::From { stream_name: text("a") },
        PipelineStage::Correlate { source_stream: text("b"), join_key: text("id"), within_ms: 10 },
    ]);
    let r = execute_explain(&q, 0, 2, &[1, 0], &[text(""), text("")], 0);
    match r.value {
        DataValue::String(t) => {
            assert!(t.contains("\"has_secondary_scan\":true"));
            assert!(t.contains("\"warnings\":[\"WARNING: Secondary full scan"));
        }
        _ => panic!("explain returns text"),
    }
}
