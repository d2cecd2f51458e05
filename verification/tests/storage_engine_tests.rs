use liven::storage::batch::{assemble_batch, CommitCursor, PendingWrite};
use liven::storage::frame::{scan_segment, segment_frames, split_payload, PayloadValue};
use liven::storage::index::{compound_key, KeyIndex};
use liven::storage::key::StreamKey;
use liven::storage::recovery::{segment_file_name, segment_id_of, Recovery};
use liven::types::{DataValue, LogPointer};

fn write(stream: &str, key: &str, text: &str, tombstone: bool) -> PendingWrite {
    let mut bytes = vec![0xa0 | text.len() as u8];
    bytes.extend_from_slice(text.as_bytes());
    PendingWrite {
        stream_name: stream.to_string(),
        key: StreamKey::from_str(key).unwrap(),
        value: if tombstone { DataValue::Null } else { DataValue::String(text.to_string()) },
        value_bytes: if tombstone { vec![0xc0] } else { bytes },
        is_tombstone: tombstone,
    }
}

#[test]
fn batch_frames_follow_each_other() {
    let b = assemble_batch(vec![write("users", "u1", "ann", false), write("users", "u2", "", true)], 10, &[100, 101]);
    assert_eq!(b.records.len(), 2);
    assert_eq!(b.records[0].sequence_id, 10);
    assert_eq!(b.records[1].sequence_id, 11);
    assert_eq!(b.records[0].timestamp, 100);
    assert_eq!(b.records[0].flags, 1);
    assert_eq!(b.records[1].flags, 2);
    assert_eq!(b.records[0].type_tag, 5);
    assert_eq!(b.records[1].type_tag, 0);
    assert_eq!(b.tombstones, vec![false, true]);
    // header 26 + (2 + 5 + 2 + 2 + 4) payload
    assert_eq!(b.frame_lens[0], 26 + 15);
    assert_eq!(b.frame_lens[1], 26 + 12);
    assert_eq!(b.bytes.len() as u64, b.frame_lens[0] + b.frame_lens[1]);
}

#[test]
fn batch_reads_back_through_a_scan() {
    let b = assemble_batch(vec![write("s", "a", "x", false), write("s", "b", "yz", false)], 1, &[5, 6]);
    let frames = scan_segment(&b.bytes, 3).unwrap();
    assert_eq!(frames.len(), 2);
    assert_eq!(frames[0].1, 0);
    assert_eq!(frames[1].1, b.frame_lens[0]);
    assert_eq!(frames[1].0.sequence_id, 2);
    assert_eq!(frames[1].0.timestamp, 6);
    let off = frames[1].1 as usize + 26;
    let payload = &b.bytes[off..off + frames[1].0.payload_len as usize];
    let parts = split_payload(payload, frames[1].0.type_tag).unwrap();
    assert_eq!(parts.stream_name, "s");
    assert_eq!(parts.key, "b");
    match parts.value {
        PayloadValue::Packed(v) => assert_eq!(v, vec![0xa2, b'y', b'z']),
        _ => panic!("a string is packed"),
    }
}

#[test]
fn index_files_batch_offsets_and_tombstones() {
    let b = assemble_batch(vec![write("s", "a", "x", false), write("s", "b", "y", false)], 1, &[5, 6]);
    let mut idx = KeyIndex::new();
    let end = idx.apply_batch(&b.records, &b.frame_lens, &b.tombstones, 4, 100);
    assert_eq!(end, 100 + b.bytes.len() as u64);
    assert_eq!(idx.get("s", "a"), Some(LogPointer { segment_id: 4, file_offset: 100 }));
    assert_eq!(idx.get("s", "b"), Some(LogPointer { segment_id: 4, file_offset: 100 + b.frame_lens[0] }));
    assert_eq!(idx.len(), 2);
    // "s:a" is 3 bytes, plus 64 per entry
    assert_eq!(idx.ram_bytes(), 2 * 67);
    let t = assemble_batch(vec![write("s", "a", "", true)], 3, &[7]);
    idx.apply_batch(&t.records, &t.frame_lens, &t.tombstones, 4, end);
    assert_eq!(idx.get("s", "a"), None);
    assert_eq!(idx.len(), 1);
    assert_eq!(idx.ram_bytes(), 67);
}

#[test]
fn index_lists_a_streams_keys_in_order() {
    let mut idx = KeyIndex::new();
    let p = LogPointer { segment_id: 1, file_offset: 0 };
    idx.record_write(compound_key("users", "zed"), Some(p));
    idx.record_write(compound_key("users", "amy"), Some(p));
    idx.record_write(compound_key("orders", "o1"), Some(p));
    idx.record_write(compound_key("users:x", "k"), Some(p));
    assert_eq!(idx.list_keys("users"), vec!["amy".to_string(), "x:k".to_string(), "zed".to_string()]);
    assert_eq!(idx.list_keys("orders"), vec!["o1".to_string()]);
    assert!(idx.list_keys("none").is_empty());
    assert_eq!(compound_key("a", "b"), "a:b");
}

#[test]
fn recovery_replays_frames_like_the_flusher_filed_them() {
    let b = assemble_batch(vec![write("s", "a", "x", false), write("t", "b", "y", false)], 1, &[5, 6]);
    let frames = scan_segment(&b.bytes, 9).unwrap();
    let mut rec = Recovery::new();
    for (h, off) in &frames {
        let start = *off as usize + 26;
        let parts = split_payload(&b.bytes[start..start + h.payload_len as usize], 2).unwrap();
        rec.replay_frame(h, &parts.stream_name, &parts.key, 9, *off, 10, 1 << 20).unwrap();
    }
    let mut filed = KeyIndex::new();
    filed.apply_batch(&b.records, &b.frame_lens, &b.tombstones, 9, 0);
    assert_eq!(rec.index.get("s", "a"), filed.get("s", "a"));
    assert_eq!(rec.index.get("t", "b"), filed.get("t", "b"));
    assert_eq!(rec.index.ram_bytes(), filed.ram_bytes());
    assert_eq!(rec.streams, vec!["s".to_string(), "t".to_string()]);
    assert_eq!(rec.highest_seq, 2);
}

#[test]
fn recovery_limits_streams_and_index_ram() {
    let b = assemble_batch(vec![write("s", "a", "x", false), write("t", "b", "y", false)], 1, &[5, 6]);
    let frames = scan_segment(&b.bytes, 9).unwrap();
    let mut rec = Recovery::new();
    rec.replay_frame(&frames[0].0, "s", "a", 9, 0, 1, 1000).unwrap();
    let e = rec.replay_frame(&frames[1].0, "t", "b", 9, frames[1].1, 1, 1000).unwrap_err();
    assert_eq!(e, "Stream limit exceeded during recovery: unique streams count 2 exceeds max_concurrent_streams 1");
    let mut rec = Recovery::new();
    let e = rec.replay_frame(&frames[0].0, "s", "a", 9, 0, 5, 10).unwrap_err();
    assert_eq!(e, "Index RAM limit exceeded during recovery: 67 bytes exceeds max_index_ram_mb 10");
}

#[test]
fn recovery_drops_tombstoned_keys() {
    let b = assemble_batch(vec![write("s", "a", "x", false), write("s", "a", "", true)], 1, &[5, 6]);
    let frames = scan_segment(&b.bytes, 2).unwrap();
    let mut rec = Recovery::new();
    rec.replay_frame(&frames[0].0, "s", "a", 2, frames[0].1, 10, 1000).unwrap();
    assert!(rec.index.get("s", "a").is_some());
    rec.replay_frame(&frames[1].0, "s", "a", 2, frames[1].1, 10, 1000).unwrap();
    assert!(rec.index.get("s", "a").is_none());
    assert_eq!(rec.index.ram_bytes(), 0);
}

#[test]
fn compaction_moves_only_stale_entries() {
    let mut idx = KeyIndex::new();
    idx.record_write(compound_key("s", "old"), Some(LogPointer { segment_id: 1, file_offset: 40 }));
    idx.record_write(compound_key("s", "new"), Some(LogPointer { segment_id: 5, file_offset: 0 }));
    idx.record_write(compound_key("s", "mid"), Some(LogPointer { segment_id: 2, file_offset: 8 }));
    let stale = idx.stale_entries(5);
    assert_eq!(stale.len(), 2);
    assert_eq!(stale[0].0, "s:mid");
    assert_eq!(stale[1].0, "s:old");
    let moved = LogPointer { segment_id: 100005, file_offset: 0 };
    idx.repoint_if_stale("s:old".to_string(), moved, 5);
    assert_eq!(idx.get("s", "old"), Some(moved));
    idx.repoint_if_stale("s:new".to_string(), moved, 5);
    assert_eq!(idx.get("s", "new"), Some(LogPointer { segment_id: 5, file_offset: 0 }));
    idx.repoint_if_stale("s:gone".to_string(), moved, 5);
    assert_eq!(idx.get("s", "gone"), None);
    assert_eq!(idx.len(), 3);
}

#[test]
fn compacted_frame_keeps_the_record_header() {
    let b = assemble_batch(vec![write("s", "a", "x", false)], 7, &[70]);
    let f = liven::storage::batch::compacted_frame(&b.records[0], &[0xa1, b'x']);
    assert_eq!(f, b.bytes);
    let frames = scan_segment(&f, 1).unwrap();
    assert_eq!(frames[0].0.sequence_id, 7);
    assert_eq!(frames[0].0.timestamp, 70);
}

#[test]
fn writes_are_admitted_within_the_limits() {
    let mut idx = KeyIndex::new();
    idx.record_write(compound_key("s", "a"), Some(LogPointer { segment_id: 1, file_offset: 0 }));
    let streams = vec!["s".to_string()];
    assert_eq!(idx.admit_append(&streams, "s", "b", false, 1, 1000), (false, Ok(())));
    let (new, r) = idx.admit_append(&streams, "t", "b", false, 1, 1000);
    assert!(!new);
    assert_eq!(r.unwrap_err(), "Maximum concurrent streams limit exceeded");
    // "s:b" needs 67 bytes on top of the 67 already counted
    assert_eq!(idx.admit_append(&streams, "s", "b", false, 1, 133).1.unwrap_err(), "Index RAM limit exceeded");
    assert_eq!(idx.admit_append(&streams, "s", "b", false, 1, 134), (false, Ok(())));
    // a key already in the index and a tombstone need no room
    assert_eq!(idx.admit_append(&streams, "s", "a", false, 1, 0), (false, Ok(())));
    assert_eq!(idx.admit_append(&streams, "u", "z", true, 2, 0), (true, Ok(())));
    let (new, r) = idx.admit_append(&streams, "u", "z", false, 2, 0);
    assert!(new && r.is_err());
}

#[test]
fn segment_files_are_named_by_id() {
    assert_eq!(segment_file_name(42), "00000000000000000042.liven");
    assert_eq!(segment_file_name(u64::MAX), "18446744073709551615.liven");
    assert_eq!(segment_id_of("00000000000000000042.liven"), Some(42));
    assert_eq!(segment_id_of("+7.liven"), Some(7));
    assert_eq!(segment_id_of("18446744073709551616.liven"), None);
    assert_eq!(segment_id_of(".liven"), None);
    assert_eq!(segment_id_of("1.b.liven"), None);
    assert_eq!(segment_id_of("12.log"), None);
}

#[test]
fn historical_scans_step_over_corrupt_frames() {
    let b = assemble_batch(vec![write("s", "a", "x", false), write("s", "b", "y", false)], 1, &[5, 6]);
    let mut bytes = b.bytes.clone();
    let last = b.frame_lens[0] as usize - 1;
    bytes[last] ^= 0xff;
    bytes.extend_from_slice(&[0u8; 20]);
    let frames = segment_frames(&bytes);
    assert_eq!(frames.len(), 2);
    assert!(!frames[0].2);
    assert!(frames[1].2);
    assert_eq!(frames[1].1, b.frame_lens[0]);
    assert!(scan_segment(&bytes, 3).is_err());
}

#[test]
fn commit_cursor_rolls_over_and_counts_only_written_commits() {
    let mut c = CommitCursor { next_seq: 10, active_segment: 1, active_size: 90 };
    let p = c.plan(3, 20, 100).unwrap();
    assert_eq!((p.first_seq, p.segment, p.offset), (10, 10, 0));
    c.roll(&p);
    assert_eq!((c.next_seq, c.active_segment, c.active_size), (10, 10, 0));
    c.advance(3, 20);
    assert_eq!((c.next_seq, c.active_segment, c.active_size), (13, 10, 20));
    let q = c.plan(2, 30, 100).unwrap();
    assert_eq!((q.first_seq, q.segment, q.offset), (13, 10, 20));
    c.roll(&q);
    assert_eq!(c.next_seq, 13);
    assert!(CommitCursor { next_seq: u64::MAX, active_segment: 0, active_size: 0 }.plan(1, 1, 100).is_none());
    assert!(CommitCursor { next_seq: 0, active_segment: 0, active_size: u64::MAX }.plan(1, 1, 100).is_none());
}

#[test]
fn compaction_repoints_only_stale_keys() {
    let old_ptr = LogPointer { segment_id: 1, file_offset: 40 };
    let live_ptr = LogPointer { segment_id: 5, file_offset: 8 };
    let moved = LogPointer { segment_id: 100005, file_offset: 0 };
    let mut idx = KeyIndex::new();
    idx.record_write(compound_key("users", "a"), Some(old_ptr));
    idx.record_write(compound_key("users", "b"), Some(live_ptr));
    let stale = idx.stale_entries(5);
    assert_eq!(stale.len(), 1);
    for (ck, _) in stale {
        idx.repoint_if_stale(ck, moved, 5);
    }
    idx.repoint_if_stale(compound_key("users", "b"), moved, 5);
    idx.repoint_if_stale(compound_key("users", "gone"), moved, 5);
    assert_eq!(idx.len(), 2);
    assert_eq!(idx.get("users", "a"), Some(moved));
    assert_eq!(idx.get("users", "b"), Some(live_ptr));
    assert_eq!(idx.get("users", "gone"), None);
}

#[test]
fn stream_keys_order_as_their_texts() {
    let k = |s: &str| StreamKey::from_str(s).unwrap();
    assert!(k("a") < k("a\0"));
    assert!(k("a") < k("ab"));
    assert!(k("ab") < k("b"));
    assert!(k("zz") > k("z"));
    assert_eq!(k("same").partial_cmp(&k("same")), Some(std::cmp::Ordering::Equal));
    assert_eq!(k("a").cmp(&k("b")), std::cmp::Ordering::Less);
    let mut keys = vec![k("b"), k("a\0"), k(""), k("a"), k("ab")];
    keys.sort();
    let texts: Vec<String> = keys.iter().map(|x| x.as_str().to_string()).collect();
    assert_eq!(texts, vec!["", "a", "a\0", "ab", "b"]);
}

#[test]
fn default_stream_key_is_empty() {
    let d = StreamKey::default();
    assert_eq!(d.as_str(), "");
    assert_eq!(d.as_bytes().len(), 0);
    assert!(d == StreamKey::from_str("").unwrap());
}
