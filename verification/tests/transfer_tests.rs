use liven::transfer::{
    check_export_version, datavalue_to_json, frame_binary_export, json_to_datavalue_with_base64, open_binary_export,
    JsonlFields, JsonlValidation,
};
use liven::types::{DataValue, JsonValue};

fn s(x: &str) -> String {
    x.to_string()
}

#[test]
fn base64_strings_import_as_binary() {
    let v = json_to_datavalue_with_base64(&JsonValue::String(s("base64:aGk="))).unwrap();
    assert_eq!(v, DataValue::Binary(b"hi".to_vec()));
    let v = json_to_datavalue_with_base64(&JsonValue::String(s("plain"))).unwrap();
    assert_eq!(v, DataValue::String(s("plain")));
    let e = json_to_datavalue_with_base64(&JsonValue::String(s("base64:!!"))).unwrap_err();
    assert!(e.starts_with("Invalid base64 encoding: "));
    let arr = JsonValue::Array(vec![JsonValue::Int(1), JsonValue::String(s("base64:%"))]);
    assert!(json_to_datavalue_with_base64(&arr).is_err());
    let obj = JsonValue::Object(vec![(s("a"), JsonValue::UInt(7)), (s("b"), JsonValue::Float(s("NaN")))]);
    assert_eq!(
        json_to_datavalue_with_base64(&obj).unwrap(),
        DataValue::Object(vec![(s("a"), DataValue::Int(7)), (s("b"), DataValue::Null)])
    );
}

#[test]
fn values_export_as_json() {
    assert_eq!(datavalue_to_json(&DataValue::Binary(b"hi".to_vec())), JsonValue::String(s("base64:aGk=")));
    assert_eq!(datavalue_to_json(&DataValue::UInt(u64::MAX)), JsonValue::String(s("18446744073709551615")));
    assert_eq!(datavalue_to_json(&DataValue::UInt(3)), JsonValue::Int(3));
    assert_eq!(datavalue_to_json(&DataValue::Vector(vec![-1, 2])), JsonValue::Array(vec![JsonValue::Int(-1), JsonValue::Int(2)]));
    assert_eq!(
        datavalue_to_json(&DataValue::Object(vec![(s("z"), DataValue::Null), (s("a"), DataValue::Bool(true))])),
        JsonValue::Object(vec![(s("a"), JsonValue::Bool(true)), (s("z"), JsonValue::Null)])
    );
}

#[test]
fn binary_exports_are_framed_and_checked() {
    let body = vec![1u8, 2, 3];
    let f = frame_binary_export(&body);
    assert_eq!(&f[..7], b"LIVEN01");
    assert_eq!(open_binary_export(&f).unwrap(), body);
    assert_eq!(open_binary_export(b"LIVEN01").unwrap_err(), "Invalid binary file: too short");
    let mut bad = f.clone();
    bad[0] = b'X';
    assert_eq!(open_binary_export(&bad).unwrap_err(), "Invalid binary file: wrong magic bytes");
    let mut bad = f.clone();
    bad[12] ^= 1;
    assert_eq!(open_binary_export(&bad).unwrap_err(), "Invalid binary file: checksum mismatch");
    assert!(check_export_version(1).is_ok());
    assert_eq!(check_export_version(2).unwrap_err(), "Unsupported binary format version: 2");
}

fn fields(stream: &str, key: &str) -> Result<JsonlFields, String> {
    Ok(JsonlFields { stream: s(stream), key: s(key), value: JsonValue::Null })
}

#[test]
fn jsonl_validation_counts_good_lines() {
    let mut v = JsonlValidation::new();
    v.check_line(1, "{...}", fields("a", "k1"));
    v.check_line(2, "   ", Err(s("EOF")));
    v.check_line(3, "{...}", fields("b", "k2"));
    v.check_line(4, "{...}", fields("a", "k3"));
    let r = v.finish().unwrap();
    assert_eq!(r.record_count, 3);
    assert_eq!(r.streams, vec![s("a"), s("b")]);
}

#[test]
fn jsonl_validation_collects_problems() {
    let mut v = JsonlValidation::new();
    v.check_line(1, "x", Err(s("expected value at line 1 column 1")));
    v.check_line(2, "{}", fields("", ""));
    v.check_line(3, "{}", fields("s", &"k".repeat(33)));
    v.check_line(4, "{}", fields("s", "ok"));
    assert_eq!(v.record_count, 0);
    let e = v.finish().unwrap_err();
    assert_eq!(
        e,
        format!(
            "Validation errors:\nLine 1: Invalid JSON: expected value at line 1 column 1\nLine 2: Missing required field 'stream'\nLine 2: Missing required field 'key'\nLine 3: Key exceeds 32 bytes: '{}'",
            "k".repeat(33)
        )
    );
}

#[test]
fn import_queries_fill_in_defaults() {
    let v = liven::types::DataValue::Int(5);
    assert_eq!(
        liven::transfer::import_query("s", "k", &v, None, None, None, 1700),
        "from(\"s\").insert([\"k\", 5, 1700, 2, 0])"
    );
    let b = liven::types::DataValue::Binary(vec![1, 2]);
    assert_eq!(
        liven::transfer::import_query("s", "k", &b, Some(-3), Some(9), Some(1), 0),
        "from(\"s\").insert([\"k\", \"base64:AQI=\", -3, 9, 1])"
    );
}
