use liven::storage::key::StreamKey;
use liven::types::{DataValue, Record};
use liven::window::{window_counts, window_groups, window_record, window_start_of};

fn rec(ts: i64, stream: &str) -> Record {
    Record {
        sequence_id: 0,
        timestamp: ts,
        type_tag: 0,
        flags: 1,
        stream_name: stream.to_string(),
        key: StreamKey::from_str("k").unwrap(),
        value: DataValue::Null,
    }
}

#[test]
fn window_starts_round_toward_zero() {
    assert_eq!(window_start_of(1999, 1000), 1000);
    assert_eq!(window_start_of(2000, 1000), 2000);
    assert_eq!(window_start_of(-1500, 1000), -1000);
    assert_eq!(window_start_of(-999, 1000), 0);
    assert_eq!(window_start_of(i64::MIN, 1), i64::MIN);
    // a duration beyond i64 acts as a negative divisor, as the engine's cast does
    assert_eq!(window_start_of(7, u64::MAX), 7);
}

#[test]
fn window_groups_are_ordered_buckets() {
    let rs = vec![rec(2500, "a"), rec(100, "b"), rec(2100, "c"), rec(900, "d"), rec(-10, "e")];
    let gs = window_groups(rs, 1000);
    let starts: Vec<i64> = gs.iter().map(|g| g.0).collect();
    assert_eq!(starts, vec![0, 2000]);
    let names: Vec<Vec<String>> =
        gs.iter().map(|g| g.1.iter().map(|r| r.stream_name.clone()).collect()).collect();
    assert_eq!(names, vec![vec!["b", "d", "e"], vec!["a", "c"]]);
}

#[test]
fn window_counts_make_one_record_per_bucket() {
    let gs = window_groups(vec![rec(10, "s"), rec(20, "s"), rec(1010, "s")], 1000);
    let out = window_counts(gs);
    assert_eq!(out.len(), 2);
    assert_eq!(out[0].value, DataValue::UInt(2));
    assert_eq!(out[1].value, DataValue::UInt(1));
    assert_eq!(out[1].timestamp, 1000);
    assert_eq!(out[1].sequence_id, 1000);
    assert_eq!(out[1].key.as_str(), "window_1000");
    assert_eq!(out[1].type_tag, 3);
}

#[test]
fn window_record_of_a_negative_start() {
    let r = window_record(-2000, "s".to_string(), DataValue::Float("1.5".to_string()));
    assert_eq!(r.sequence_id, (-2000i64) as u64);
    assert_eq!(r.key.as_str(), "window_-2000");
    assert_eq!(r.type_tag, 4);
}
