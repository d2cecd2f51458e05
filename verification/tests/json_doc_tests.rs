use liven::config::resolve_security_mode;
use liven::json_doc::{doc_field, parse_json_doc, parse_msgpack_doc};
use liven::types::{parse_json_to_datavalue, DataValue, JsonValue};

#[test]
fn json_documents_parse_into_the_model() {
    let doc = parse_json_doc("{\"b\":[1,-2,3.5],\"a\":\"x\",\"big\":18446744073709551615}").unwrap();
    assert_eq!(
        doc,
        JsonValue::Object(vec![
            ("a".to_string(), JsonValue::String("x".to_string())),
            ("b".to_string(), JsonValue::Array(vec![JsonValue::Int(1), JsonValue::Int(-2), JsonValue::Float("3.5".to_string())])),
            ("big".to_string(), JsonValue::UInt(u64::MAX)),
        ])
    );
    assert_eq!(parse_json_doc("{oops"), None);
    assert_eq!(parse_json_doc("true"), Some(JsonValue::Bool(true)));
}

#[test]
fn msgpack_documents_parse_into_the_model() {
    // {"n": 5} as a one-entry map.
    let bytes = vec![0x81, 0xa1, b'n', 0x05];
    assert_eq!(parse_msgpack_doc(&bytes), Some(JsonValue::Object(vec![("n".to_string(), JsonValue::Int(5))])));
    assert_eq!(parse_msgpack_doc(&[0xc1]), None);
}

#[test]
fn document_fields_read_scalars_and_nested_text() {
    let doc = parse_json_doc("{\"n\":null,\"o\":{\"k\":[true]},\"u\":18446744073709551615,\"s\":\"t\"}").unwrap();
    assert_eq!(doc_field(&doc, "n"), Some(DataValue::Null));
    assert_eq!(doc_field(&doc, "o"), Some(DataValue::String("{\"k\":[true]}".to_string())));
    assert_eq!(doc_field(&doc, "u"), Some(DataValue::UInt(u64::MAX)));
    assert_eq!(doc_field(&doc, "s"), Some(DataValue::String("t".to_string())));
    assert_eq!(doc_field(&doc, "missing"), None);
    assert_eq!(doc_field(&JsonValue::Int(1), "n"), None);
}

#[test]
fn text_parses_to_values_or_stays_text() {
    assert_eq!(
        parse_json_to_datavalue("{\"a\":[1,{\"b\":2}]}"),
        DataValue::Object(vec![(
            "a".to_string(),
            DataValue::Array(vec![DataValue::Int(1), DataValue::Object(vec![("b".to_string(), DataValue::Int(2))])])
        )])
    );
    assert_eq!(parse_json_to_datavalue("1.25"), DataValue::Float("1.25".to_string()));
    assert_eq!(parse_json_to_datavalue("hello"), DataValue::String("hello".to_string()));
}

#[test]
fn security_mode_defaults_to_auth_key() {
    assert_eq!(resolve_security_mode(false, "none"), "auth_key");
    assert_eq!(resolve_security_mode(true, "none"), "none");
    assert_eq!(resolve_security_mode(true, "ztna"), "ztna");
}
