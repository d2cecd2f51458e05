use liven::codec::{
    decode_frame_bytes, encode_packed, encode_vector, split_frame, unknown_discriminator_message, FramePayload,
    FrameSplit, LivenCodec,
};
use liven::storage::frame::{
    decode_header, encode_frame, encode_header, frame_step, scan_segment, serialize_payload_into,
    split_payload, vector_value_bytes, FrameHeader, FrameReader, FrameStep, PayloadValue,
};
use liven::storage::key::StreamKey;
use liven::storage::timestamp_index::TimestampIndex;
use liven::types::LogPointer;

#[test]
fn codec_remembers_its_side() {
    assert!(LivenCodec::new(true).is_client);
    assert!(!LivenCodec::new(false).is_client);
}

#[test]
fn vector_frame_roundtrip() {
    let mut buf = Vec::new();
    encode_vector(&[1, -1, 127, -128], &mut buf);
    assert_eq!(buf, vec![0x01, 0, 0, 0, 5, 0x03, 1, 0xff, 0x7f, 0x80]);
    match split_frame(&buf) {
        FrameSplit::Ready(start, len) => {
            assert_eq!((start, len), (5, 5));
            match decode_frame_bytes(&buf[start..start + len]).unwrap() {
                FramePayload::Vector(v) => assert_eq!(v, vec![1, -1, 127, -128]),
                _ => panic!("expected a vector"),
            }
        }
        _ => panic!("expected a complete frame"),
    }
}

#[test]
fn packed_frame_roundtrip() {
    let mut buf = Vec::new();
    encode_packed(&[0x91, 0x01], &mut buf);
    assert_eq!(buf, vec![0x01, 0, 0, 0, 3, 0x02, 0x91, 0x01]);
    match split_frame(&buf) {
        FrameSplit::Ready(5, 3) => match decode_frame_bytes(&buf[5..8]).unwrap() {
            FramePayload::Packed(b) => assert_eq!(b, vec![0x91, 0x01]),
            _ => panic!("expected packed bytes"),
        },
        _ => panic!("expected a complete frame"),
    }
}

#[test]
fn partial_frames_wait() {
    assert!(matches!(split_frame(&[]), FrameSplit::Wait));
    assert!(matches!(split_frame(&[0x01, 0, 0]), FrameSplit::Wait));
    assert!(matches!(split_frame(&[0x01, 0, 0, 0, 9, 3]), FrameSplit::Reserve(14)));
    // A legacy frame: the length comes first.
    assert!(matches!(split_frame(&[0x00, 0, 0, 1, 7]), FrameSplit::Reserve(268)));
    assert!(matches!(split_frame(&[0x05, 0, 0, 0]), FrameSplit::Reserve(83886084)));
}

#[test]
fn frame_content_errors() {
    assert_eq!(decode_frame_bytes(&[]).err().unwrap(), "Empty TCP frame payload");
    match decode_frame_bytes(&[0x09, 1]).unwrap() {
        FramePayload::Legacy { discriminator, bytes } => {
            assert_eq!(discriminator, 9);
            assert_eq!(bytes, vec![9, 1]);
        }
        _ => panic!("expected legacy content"),
    }
    assert_eq!(unknown_discriminator_message(9), "Unknown TCP frame discriminator: 9");
}

#[test]
fn header_roundtrip() {
    let h = FrameHeader { sequence_id: 42, timestamp: -7, type_tag: 5, flags: 1, payload_len: 300, crc32: 0xdeadbeef };
    let bytes = encode_header(&h);
    assert_eq!(bytes.len(), 26);
    assert_eq!(&bytes[..8], &[0, 0, 0, 0, 0, 0, 0, 42]);
    assert_eq!(decode_header(&bytes), Some(h));
    assert_eq!(decode_header(&bytes[..25]), None);
}

#[test]
fn crc_matches_the_standard_check_value() {
    // a frame carries the CRC-32 of its payload in header bytes 22..26
    let f = encode_frame(1, 2, 5, 1, b"123456789");
    assert_eq!(&f[22..26], &0xCBF43926u32.to_be_bytes());
}

#[test]
fn payload_roundtrip_and_errors() {
    let mut buf = Vec::new();
    serialize_payload_into("logs", "k1", &[0xc0], &mut buf);
    assert_eq!(buf, vec![0, 4, b'l', b'o', b'g', b's', 0, 2, b'k', b'1', 0xc0]);
    let parts = split_payload(&buf, 5).unwrap();
    assert_eq!(parts.stream_name, "logs");
    assert_eq!(parts.key, "k1");
    assert!(matches!(parts.value, PayloadValue::Packed(ref b) if b == &vec![0xc0]));

    assert_eq!(split_payload(&[0, 1], 5).err().unwrap(), "Payload too short");
    assert_eq!(split_payload(&[0, 5, 1, 2], 5).err().unwrap(), "Payload too short for stream name");
    assert_eq!(split_payload(&[0, 0, 0, 9], 5).err().unwrap(), "Payload too short for key");
    assert!(split_payload(&[0, 1, 0xff, 0, 0], 5).is_err());
}

#[test]
fn vector_payloads_and_reader() {
    let vb = vector_value_bytes(&[3, -3]);
    assert_eq!(vb, vec![3, 0xfd]);
    let mut payload = Vec::new();
    serialize_payload_into("s", "k", &vb, &mut payload);
    let frame = encode_frame(1, 10, 8, 1, &payload);
    let reader = FrameReader::new(&frame);
    assert_eq!(reader.as_vector_slice(), Some(vec![3, -3]));
    let parts = split_payload(&payload, 8).unwrap();
    assert!(matches!(parts.value, PayloadValue::Vector(ref v) if v == &vec![3, -3]));
    let other = encode_frame(1, 10, 5, 1, &payload);
    assert_eq!(FrameReader::new(&other).as_vector_slice(), None);
}

#[test]
fn segment_scan_stops_at_a_torn_write_and_fails_on_corruption() {
    let a = encode_frame(1, 100, 5, 1, &[1, 2, 3]);
    let b = encode_frame(2, 200, 5, 1, &[4, 5]);
    let mut seg = a.clone();
    seg.extend_from_slice(&b);
    let frames = scan_segment(&seg, 7).unwrap();
    assert_eq!(frames.len(), 2);
    assert_eq!(frames[0].1, 0);
    assert_eq!(frames[1].1, 29);
    assert_eq!(frames[1].0.sequence_id, 2);

    let torn = &seg[..seg.len() - 1];
    assert_eq!(scan_segment(torn, 7).unwrap().len(), 1);
    assert!(matches!(frame_step(torn, 29), FrameStep::Truncated));

    let mut bad = seg.clone();
    bad[27] ^= 0xff;
    assert_eq!(scan_segment(&bad, 7).unwrap_err(), "Data corruption in segment 7 at offset 0");
}

#[test]
fn keys_sort_by_time() {
    let k1 = StreamKey::k_sortable_from(1000, u64::MAX);
    let k2 = StreamKey::k_sortable_from(1001, 0);
    assert!(k1.as_bytes() < k2.as_bytes());
    assert_eq!(k1.as_str(), "00000000000003e8ffffffffffffffff");
    let g = StreamKey::generate_k_sortable();
    assert_eq!(g.as_bytes().len(), 32);
    assert!(g.as_str().chars().all(|c| c.is_ascii_hexdigit()));
}

#[test]
fn key_limits() {
    assert!(StreamKey::from_str("short").is_ok());
    assert!(StreamKey::from_str(&"x".repeat(33)).is_err());
    let t = StreamKey::from_str_truncated(&"é".repeat(20));
    assert_eq!(t.as_str(), "é".repeat(16));
}

#[test]
fn timestamp_index_ranges_in_order() {
    let mut idx = TimestampIndex::new();
    assert!(idx.is_empty());
    idx.insert(20, 1, LogPointer { segment_id: 1, file_offset: 20 });
    idx.insert(10, 2, LogPointer { segment_id: 1, file_offset: 10 });
    idx.insert(10, 1, LogPointer { segment_id: 1, file_offset: 5 });
    idx.insert(30, 1, LogPointer { segment_id: 2, file_offset: 0 });
    assert_eq!(idx.len(), 4);
    let r = idx.range(10, 20);
    assert_eq!(r.iter().map(|p| p.file_offset).collect::<Vec<_>>(), vec![5, 10, 20]);
    idx.remove(10, 2);
    assert_eq!(idx.range(0, 100).len(), 3);
}
