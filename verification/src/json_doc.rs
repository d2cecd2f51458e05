//! Stored documents: the JSON text or MessagePack bytes that a record holds,
//! read with `serde_json` and `rmp_serde` into the library's JSON model, and
//! a field read out of such a document.
use crate::card::{lookup, lookup_exec};
use crate::query_parser::push_json_text;
use crate::types::{DataValue, DataValueV, JsonV, JsonValue};
use vstd::prelude::*;

verus! {

/// A document parsed by `serde_json`, as that crate holds it.
#[verifier::external_type_specification]
#[verifier::external_body]
pub struct ExJsonDocument(serde_json::Value);

/// The document that `serde_json` reads from a text, in the library's JSON
/// model; none when the text is not JSON.
pub uninterp spec fn json_doc_of(text: Seq<char>) -> Option<JsonV>;

/// The document that `rmp_serde` decodes from MessagePack bytes, in the
/// library's JSON model; none when the bytes do not decode.
pub uninterp spec fn msgpack_doc_of(bytes: Seq<u8>) -> Option<JsonV>;

/// The model of an optional document.
pub open spec fn opt_json_view(o: Option<JsonValue>) -> Option<JsonV> {
    match o {
        Some(v) => Some(v@),
        None => None,
    }
}

/// Carries a parsed `serde_json` document over into the library's JSON
/// model, variant for variant: a number becomes `Int` where `serde_json`
/// reads it as an `i64`, else `UInt` where it reads it as a `u64`, else
/// `Float` with `serde_json`'s text of it; an object keeps the entries in
/// the order that `serde_json` gives them. Nothing is stated of it: it only
/// serves the bodies of the two parsing functions below.
#[verifier::external_body]
fn json_model(v: &serde_json::Value) -> JsonValue {
    match v {
        serde_json::Value::Null => JsonValue::Null,
        serde_json::Value::Bool(b) => JsonValue::Bool(*b),
        serde_json::Value::Number(n) => match (n.as_i64(), n.as_u64()) {
            (Some(i), _) => JsonValue::Int(i),
            (None, Some(u)) => JsonValue::UInt(u),
            _ => JsonValue::Float(n.to_string()),
        },
        serde_json::Value::String(s) => JsonValue::String(s.clone()),
        serde_json::Value::Array(a) => JsonValue::Array(a.iter().map(json_model).collect()),
        serde_json::Value::Object(o) => JsonValue::Object(o.iter().map(|(k, x)| (k.clone(), json_model(x))).collect()),
    }
}

/// Parses a text with `serde_json::from_str`; its result is named by
/// [`json_doc_of`].
#[verifier::external_body]
pub fn parse_json_doc(text: &str) -> (r: Option<JsonValue>)
    ensures
        opt_json_view(r) == json_doc_of(text@),
{
    serde_json::from_str::<serde_json::Value>(text).ok().map(|v| json_model(&v))
}

/// Decodes MessagePack bytes with `rmp_serde::from_slice`; its result is
/// named by [`msgpack_doc_of`].
#[verifier::external_body]
pub fn parse_msgpack_doc(bytes: &[u8]) -> (r: Option<JsonValue>)
    ensures
        opt_json_view(r) == msgpack_doc_of(bytes@),
{
    rmp_serde::from_slice::<serde_json::Value>(bytes).ok().map(|v| json_model(&v))
}

/// The compact JSON text that `serde_json` writes for a document (its
/// `Display` form): an object's entries in ascending key order, a later
/// entry replacing an earlier one with the same key, and a `Float` written
/// as `serde_json` writes the number its text reads as (`null` when the
/// text is not a JSON number).
pub uninterp spec fn json_text_of(v: JsonV) -> Seq<char>;

/// Carries a document of the library's JSON model over into a
/// `serde_json::Value`, variant for variant; a `Float` becomes the number
/// that `serde_json::Number::from_str` reads from its text, or `null` where
/// it reads none. Nothing is stated of it: it only serves the body of
/// [`json_to_text`].
#[verifier::external_body]
fn serde_model(v: &JsonValue) -> serde_json::Value {
    match v {
        JsonValue::Null => serde_json::Value::Null,
        JsonValue::Bool(b) => serde_json::Value::Bool(*b),
        JsonValue::Int(i) => serde_json::Value::from(*i),
        JsonValue::UInt(u) => serde_json::Value::from(*u),
        JsonValue::Float(t) => t.parse::<serde_json::Number>().map(serde_json::Value::Number).unwrap_or(serde_json::Value::Null),
        JsonValue::String(t) => serde_json::Value::String(t.clone()),
        JsonValue::Array(a) => serde_json::Value::Array(a.iter().map(serde_model).collect()),
        JsonValue::Object(es) => serde_json::Value::Object(es.iter().map(|(k, x)| (k.clone(), serde_model(x))).collect()),
    }
}

/// Writes a document as compact JSON text with `serde_json` (the
/// `Display` form of `serde_json::Value`); its result is named by
/// [`json_text_of`].
#[verifier::external_body]
pub fn json_to_text(v: &JsonValue) -> (r: String)
    ensures
        r@ == json_text_of(v@),
{
    serde_model(v).to_string()
}

/// The value that a document field is read as: scalars as they are, arrays
/// and objects as their compact JSON text.
pub open spec fn field_data(v: JsonV) -> DataValueV {
    match v {
        JsonV::Null => DataValueV::Null,
        JsonV::Bool(b) => DataValueV::Bool(b),
        JsonV::Int(i) => DataValueV::Int(i),
        JsonV::UInt(u) => DataValueV::UInt(u),
        JsonV::Float(t) => DataValueV::Float(t),
        JsonV::Str(t) => DataValueV::Str(t),
        _ => DataValueV::Str(json_text_of(v)),
    }
}

/// A field of a document: the value of the first entry with that name when
/// the document is an object; none otherwise.
pub open spec fn spec_doc_field(doc: JsonV, field: Seq<char>) -> Option<DataValueV> {
    match doc {
        JsonV::Object(es) => match lookup(es, field) {
            Some(v) => Some(field_data(v)),
            None => None,
        },
        _ => None,
    }
}

/// Reads a field of a document (see [`spec_doc_field`]).
pub fn doc_field(doc: &JsonValue, field: &str) -> (r: Option<DataValue>)
    ensures
        crate::filter::opt_data_view(r) == spec_doc_field(doc@, field@),
{
    match doc {
        JsonValue::Object(es) => match lookup_exec(es, field) {
            Some(v) => Some(
                match v {
                    JsonValue::Null => DataValue::Null,
                    JsonValue::Bool(b) => DataValue::Bool(*b),
                    JsonValue::Int(i) => DataValue::Int(*i),
                    JsonValue::UInt(u) => DataValue::UInt(*u),
                    JsonValue::Float(t) => DataValue::Float(t.clone()),
                    JsonValue::String(t) => DataValue::String(t.clone()),
                    _ => {
                        let mut s = String::new();
                        push_json_text(&mut s, v);
                        DataValue::String(s)
                    },
                },
            ),
            None => None,
        },
        _ => None,
    }
}

} // verus!
