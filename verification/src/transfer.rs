//! Import and export: the JSON form of stored values (binary values as
//! `base64:` text), the checks that an import file goes through, and the
//! framing of binary export files.
use crate::codec::be32;
use crate::mutation::set_entries;
use crate::query_parser::{is_non_finite_word, lemma_json_entries_view_index, lemma_json_values_view_index, obj_insert};
use crate::storage::frame::crc32_of;
use crate::types::{
    data_entries_view, data_values_view, json_entries_view, json_values_view, strings_view, DataValue, DataValueV,
    JsonV, JsonValue,
};
use base64::engine::general_purpose;
use base64::Engine;
use vstd::prelude::*;
use vstd::string::StringSliceAdditionalSpecFns;

verus! {

/// What a validation of an export file found.
#[derive(Debug)]
pub struct ValidationReport {
    pub record_count: usize,
    pub streams: Vec<String>,
}

/// What an import did.
#[derive(Debug)]
pub struct ImportStats {
    pub imported_count: usize,
    pub skipped_count: usize,
}

// ------------------------------------------------------------------ base64

/// The character of a six-bit group in the standard base64 alphabet.
pub open spec fn base64_char(d: int) -> char {
    if d < 26 {
        (65 + d) as char
    } else if d < 52 {
        (97 + d - 26) as char
    } else if d < 62 {
        (48 + d - 52) as char
    } else if d == 62 {
        '+'
    } else {
        '/'
    }
}

/// The standard (padded) base64 text of some bytes: each run of three bytes
/// becomes four characters of six bits each; a last run of one or two bytes
/// is padded with `=` to four characters.
pub open spec fn base64_text(data: Seq<u8>) -> Seq<char>
    decreases data.len(),
{
    if data.len() == 0 {
        Seq::empty()
    } else if data.len() == 1 {
        seq![base64_char((data[0] as int) / 4), base64_char(((data[0] as int) % 4) * 16), '=', '=']
    } else if data.len() == 2 {
        seq![
            base64_char((data[0] as int) / 4),
            base64_char(((data[0] as int) % 4) * 16 + (data[1] as int) / 16),
            base64_char(((data[1] as int) % 16) * 4),
            '=',
        ]
    } else {
        seq![
            base64_char((data[0] as int) / 4),
            base64_char(((data[0] as int) % 4) * 16 + (data[1] as int) / 16),
            base64_char(((data[1] as int) % 16) * 4 + (data[2] as int) / 64),
            base64_char((data[2] as int) % 64),
        ] + base64_text(data.skip(3))
    }
}

/// What the `base64` crate's standard engine decodes from some text: the
/// bytes, or the error's message.
pub uninterp spec fn base64_decoded(text: Seq<u8>) -> Result<Seq<u8>, Seq<char>>;

/// `general_purpose::STANDARD.encode`, which writes the standard padded
/// base64 text that [`base64_text`] defines.
#[verifier::external_body]
fn base64_encode(data: &[u8]) -> (r: String)
    ensures
        r@ == base64_text(data@),
{
    general_purpose::STANDARD.encode(data)
}

/// `general_purpose::STANDARD.decode`, with a failure given as the error's
/// `Display` text; which inputs fail is the crate's.
#[verifier::external_body]
fn base64_decode(text: &str) -> (r: Result<Vec<u8>, String>)
    ensures
        match base64_decoded(text.spec_bytes()) {
            Ok(b) => (r matches Ok(v) && v@ == b),
            Err(m) => (r matches Err(e) && e@ == m),
        },
{
    match general_purpose::STANDARD.decode(text) {
        Ok(v) => Ok(v),
        Err(e) => Err(e.to_string()),
    }
}

// ------------------------------------------------------- values and JSON

/// The marker of a binary value's text.
pub open spec fn base64_prefix() -> Seq<char> {
    "base64:"@
}

/// The value that an import stores for a JSON value: numbers as integers
/// when they fit `i64`, floats as their text (null for an infinity or NaN),
/// `base64:` strings decoded to binary, arrays and objects member by member;
/// the first bad `base64:` string, in order, refuses the whole value.
pub open spec fn import_value(v: JsonV) -> Result<DataValueV, Seq<char>>
    decreases v, 0int,
{
    match v {
        JsonV::Null => Ok(DataValueV::Null),
        JsonV::Bool(b) => Ok(DataValueV::Bool(b)),
        JsonV::Int(i) => Ok(DataValueV::Int(i)),
        JsonV::UInt(u) => if u <= i64::MAX {
            Ok(DataValueV::Int(u as i64))
        } else {
            Ok(DataValueV::UInt(u))
        },
        JsonV::Float(t) => if is_non_finite_word(t) {
            Ok(DataValueV::Null)
        } else {
            Ok(DataValueV::Float(t))
        },
        JsonV::Str(s) => if s.len() >= 7 && s.subrange(0, 7) == base64_prefix() {
            match base64_decoded(vstd::utf8::encode_utf8(s.subrange(7, s.len() as int))) {
                Ok(b) => Ok(DataValueV::Binary(b)),
                Err(e) => Err("Invalid base64 encoding: "@ + e),
            }
        } else {
            Ok(DataValueV::Str(s))
        },
        JsonV::Array(items) => match import_items(items) {
            Ok(ds) => Ok(DataValueV::Array(ds)),
            Err(e) => Err(e),
        },
        JsonV::Object(es) => match import_entries(es) {
            Ok(ds) => Ok(DataValueV::Object(ds)),
            Err(e) => Err(e),
        },
    }
}

/// The stored values of array items (see [`import_value`]).
pub open spec fn import_items(items: Seq<JsonV>) -> Result<Seq<DataValueV>, Seq<char>>
    decreases items, 1int,
{
    if items.len() == 0 {
        Ok(Seq::empty())
    } else {
        match import_items(items.drop_last()) {
            Ok(ds) => match import_value(items.last()) {
                Ok(d) => Ok(ds.push(d)),
                Err(e) => Err(e),
            },
            Err(e) => Err(e),
        }
    }
}

/// The stored values of object entries (see [`import_value`]).
pub open spec fn import_entries(es: Seq<(Seq<char>, JsonV)>) -> Result<Seq<(Seq<char>, DataValueV)>, Seq<char>>
    decreases es, 1int,
{
    if es.len() == 0 {
        Ok(Seq::empty())
    } else {
        match import_entries(es.drop_last()) {
            Ok(ds) => match import_value(es.last().1) {
                Ok(d) => Ok(ds.push((es.last().0, d))),
                Err(e) => Err(e),
            },
            Err(e) => Err(e),
        }
    }
}

fn starts_with_base64(s: &str) -> (r: bool)
    ensures
        r == (s@.len() >= 7 && s@.subrange(0, 7) == base64_prefix()),
{
    let cs = crate::text::chars_of(s);
    proof {
        reveal_strlit("base64:");
    }
    if cs.len() < 7 {
        return false;
    }
    let head = crate::parser::substring(cs.as_slice(), 0, 7);
    head == crate::text::owned("base64:")
}

/// Converts an imported JSON value to the value to store (see [`import_value`]).
pub fn json_to_datavalue_with_base64(json: &JsonValue) -> (r: Result<DataValue, String>)
    ensures
        match import_value(json@) {
            Ok(d) => (r matches Ok(x) && x@ == d),
            Err(m) => (r matches Err(e) && e@ == m),
        },
    decreases json, 0int,
{
    match json {
        JsonValue::Null => Ok(DataValue::Null),
        JsonValue::Bool(b) => Ok(DataValue::Bool(*b)),
        JsonValue::Int(i) => Ok(DataValue::Int(*i)),
        JsonValue::UInt(u) => if *u <= i64::MAX as u64 {
            Ok(DataValue::Int(*u as i64))
        } else {
            Ok(DataValue::UInt(*u))
        },
        JsonValue::Float(t) => {
            let tc = crate::text::chars_of(t.as_str());
            if crate::query_parser::is_non_finite_word_exec(tc.as_slice()) {
                Ok(DataValue::Null)
            } else {
                Ok(DataValue::Float(t.clone()))
            }
        },
        JsonValue::String(s) => {
            if starts_with_base64(s.as_str()) {
                let cs = crate::text::chars_of(s.as_str());
                let rest = crate::parser::substring(cs.as_slice(), 7, cs.len());
                match base64_decode(rest.as_str()) {
                    Ok(b) => Ok(DataValue::Binary(b)),
                    Err(e) => {
                        let mut m = crate::text::owned("Invalid base64 encoding: ");
                        m.append(e.as_str());
                        Err(m)
                    },
                }
            } else {
                Ok(DataValue::String(s.clone()))
            }
        },
        JsonValue::Array(items) => match import_items_exec(items) {
            Ok(ds) => Ok(DataValue::Array(ds)),
            Err(e) => Err(e),
        },
        JsonValue::Object(es) => match import_entries_exec(es) {
            Ok(ds) => Ok(DataValue::Object(ds)),
            Err(e) => Err(e),
        },
    }
}

fn import_items_exec(items: &Vec<JsonValue>) -> (r: Result<Vec<DataValue>, String>)
    ensures
        match import_items(json_values_view(items@)) {
            Ok(ds) => (r matches Ok(x) && data_values_view(x@) == ds),
            Err(m) => (r matches Err(e) && e@ == m),
        },
    decreases items, 0int,
{
    let ghost iv = json_values_view(items@);
    proof {
        lemma_json_values_view_index(items@);
        assert(iv.take(0) =~= Seq::<JsonV>::empty());
    }
    let mut out: Vec<DataValue> = Vec::new();
    let mut i: usize = 0;
    while i < items.len()
        invariant
            i <= items@.len(),
            iv == json_values_view(items@),
            iv.len() == items@.len(),
            forall|k: int| 0 <= k < items@.len() ==> #[trigger] iv[k] == items@[k]@,
            import_items(iv.take(i as int)) == Ok::<Seq<DataValueV>, Seq<char>>(data_values_view(out@)),
        decreases items.len() - i,
    {
        let ghost t = iv.take(i + 1);
        proof {
            assert(t.drop_last() =~= iv.take(i as int));
            assert(t.last() == items@[i as int]@);
        }
        match json_to_datavalue_with_base64(&items[i]) {
            Ok(d) => {
                let ghost before = out@;
                out.push(d);
                proof {
                    crate::types::lemma_data_values_view_push(before, d);
                }
            },
            Err(e) => {
                proof {
                    lemma_import_items_err_prefix(iv, i as int + 1);
                }
                return Err(e);
            },
        }
        i += 1;
    }
    assert(iv.take(iv.len() as int) =~= iv);
    Ok(out)
}

proof fn lemma_import_items_err_prefix(items: Seq<JsonV>, n: int)
    requires
        0 <= n <= items.len(),
        import_items(items.take(n)) is Err,
    ensures
        import_items(items) == import_items(items.take(n)),
    decreases items.len() - n,
{
    if n < items.len() {
        assert(items.take(n + 1).drop_last() =~= items.take(n));
        lemma_import_items_err_prefix(items, n + 1);
    } else {
        assert(items.take(n) =~= items);
    }
}

proof fn lemma_import_entries_err_prefix(es: Seq<(Seq<char>, JsonV)>, n: int)
    requires
        0 <= n <= es.len(),
        import_entries(es.take(n)) is Err,
    ensures
        import_entries(es) == import_entries(es.take(n)),
    decreases es.len() - n,
{
    if n < es.len() {
        assert(es.take(n + 1).drop_last() =~= es.take(n));
        lemma_import_entries_err_prefix(es, n + 1);
    } else {
        assert(es.take(n) =~= es);
    }
}

fn import_entries_exec(es: &Vec<(String, JsonValue)>) -> (r: Result<Vec<(String, DataValue)>, String>)
    ensures
        match import_entries(json_entries_view(es@)) {
            Ok(ds) => (r matches Ok(x) && data_entries_view(x@) == ds),
            Err(m) => (r matches Err(e) && e@ == m),
        },
    decreases es, 0int,
{
    let ghost ev = json_entries_view(es@);
    proof {
        lemma_json_entries_view_index(es@);
        assert(ev.take(0) =~= Seq::<(Seq<char>, JsonV)>::empty());
    }
    let mut out: Vec<(String, DataValue)> = Vec::new();
    let mut i: usize = 0;
    while i < es.len()
        invariant
            i <= es@.len(),
            ev == json_entries_view(es@),
            ev.len() == es@.len(),
            forall|k: int| 0 <= k < es@.len() ==> #[trigger] ev[k] == (es@[k].0@, es@[k].1@),
            import_entries(ev.take(i as int)) == Ok::<Seq<(Seq<char>, DataValueV)>, Seq<char>>(data_entries_view(out@)),
        decreases es.len() - i,
    {
        let ghost t = ev.take(i + 1);
        proof {
            assert(t.drop_last() =~= ev.take(i as int));
            assert(t.last() == ev[i as int]);
        }
        match json_to_datavalue_with_base64(&es[i].1) {
            Ok(d) => {
                let k = es[i].0.clone();
                let ghost before = out@;
                out.push((k, d));
                proof {
                    assert(out@ =~= before.push((k, d)));
                    assert(out@.drop_last() =~= before);
                }
            },
            Err(e) => {
                proof {
                    lemma_import_entries_err_prefix(ev, i as int + 1);
                }
                return Err(e);
            },
        }
        i += 1;
    }
    assert(ev.take(ev.len() as int) =~= ev);
    Ok(out)
}

/// The JSON form that an export writes for a stored value: unsigned
/// integers beyond `i64` as decimal text, floats as their text (null for an
/// infinity or NaN), binary as `base64:` text, vectors as arrays of integers.
pub open spec fn export_value(v: DataValueV) -> JsonV
    decreases v, 0int,
{
    match v {
        DataValueV::Null => JsonV::Null,
        DataValueV::Bool(b) => JsonV::Bool(b),
        DataValueV::Int(i) => JsonV::Int(i),
        DataValueV::UInt(u) => if u <= i64::MAX {
            JsonV::Int(u as i64)
        } else {
            JsonV::Str(crate::parser::nat_text(u as nat))
        },
        DataValueV::Float(t) => if is_non_finite_word(t) {
            JsonV::Null
        } else {
            JsonV::Float(t)
        },
        DataValueV::Str(s) => JsonV::Str(s),
        DataValueV::Binary(b) => JsonV::Str(base64_prefix() + base64_text(b)),
        DataValueV::Array(items) => JsonV::Array(export_items(items)),
        DataValueV::Object(es) => JsonV::Object(set_entries(Seq::empty(), export_entries(es))),
        DataValueV::Vector(v) => JsonV::Array(Seq::new(v.len(), |i: int| JsonV::Int(v[i] as i64))),
    }
}

/// The JSON forms of array items.
pub open spec fn export_items(items: Seq<DataValueV>) -> Seq<JsonV>
    decreases items, 1int,
{
    if items.len() == 0 {
        Seq::empty()
    } else {
        export_items(items.drop_last()).push(export_value(items.last()))
    }
}

/// The JSON forms of object entries.
pub open spec fn export_entries(es: Seq<(Seq<char>, DataValueV)>) -> Seq<(Seq<char>, JsonV)>
    decreases es, 1int,
{
    if es.len() == 0 {
        Seq::empty()
    } else {
        export_entries(es.drop_last()).push((es.last().0, export_value(es.last().1)))
    }
}

/// The JSON form of a stored value for an export (see [`export_value`]).
pub fn datavalue_to_json(value: &DataValue) -> (r: JsonValue)
    ensures
        r@ == export_value(value@),
    decreases value, 0int,
{
    match value {
        DataValue::Null => JsonValue::Null,
        DataValue::Bool(b) => JsonValue::Bool(*b),
        DataValue::Int(i) => JsonValue::Int(*i),
        DataValue::UInt(u) => if *u <= i64::MAX as u64 {
            JsonValue::Int(*u as i64)
        } else {
            JsonValue::String(crate::parser::nat_text_exec(*u))
        },
        DataValue::Float(t) => {
            let tc = crate::text::chars_of(t.as_str());
            if crate::query_parser::is_non_finite_word_exec(tc.as_slice()) {
                JsonValue::Null
            } else {
                JsonValue::Float(t.clone())
            }
        },
        DataValue::String(s) => JsonValue::String(s.clone()),
        DataValue::Binary(b) => {
            let mut t = crate::text::owned("base64:");
            t.append(base64_encode(b.as_slice()).as_str());
            proof {
                reveal_strlit("base64:");
            }
            JsonValue::String(t)
        },
        DataValue::Array(items) => JsonValue::Array(export_items_exec(items)),
        DataValue::Object(es) => {
            let pairs = export_entries_exec(es);
            let ghost pv = json_entries_view(pairs@);
            let n = pairs.len();
            proof {
                lemma_json_entries_view_index(pairs@);
            }
            let mut rev: Vec<(String, JsonValue)> = Vec::new();
            let mut src = pairs;
            while src.len() > 0
                invariant
                    src@.len() + rev@.len() == n == pv.len(),
                    forall|t: int| 0 <= t < src@.len() ==> (#[trigger] src@[t]).0@ == pv[t].0 && src@[t].1@ == pv[t].1,
                    forall|t: int| 0 <= t < rev@.len() ==> (#[trigger] rev@[t]).0@ == pv[n - 1 - t].0 && rev@[t].1@ == pv[n - 1 - t].1,
                decreases src@.len(),
            {
                let x = src.pop().unwrap();
                rev.push(x);
            }
            let mut obj: Vec<(String, JsonValue)> = Vec::new();
            let mut i: usize = 0;
            assert(pv.take(0) =~= Seq::<(Seq<char>, JsonV)>::empty());
            assert(json_entries_view(obj@) =~= Seq::<(Seq<char>, JsonV)>::empty());
            while i < n
                invariant
                    i <= n == pv.len(),
                    rev@.len() == n - i,
                    forall|t: int| 0 <= t < rev@.len() ==> (#[trigger] rev@[t]).0@ == pv[n - 1 - t].0 && rev@[t].1@ == pv[n - 1 - t].1,
                    json_entries_view(obj@) == set_entries(Seq::empty(), pv.take(i as int)),
                decreases n - i,
            {
                let ghost last = rev@[rev@.len() - 1];
                assert(last.0@ == pv[i as int].0 && last.1@ == pv[i as int].1);
                let kv = rev.pop().unwrap();
                assert(kv == last);
                let (k, v) = kv;
                crate::query_parser::obj_insert_exec(&mut obj, k, v);
                proof {
                    assert(pv.take(i + 1).drop_last() =~= pv.take(i as int));
                    assert(pv.take(i + 1).last() == pv[i as int]);
                }
                i += 1;
            }
            assert(pv.take(n as int) =~= pv);
            JsonValue::Object(obj)
        },
        DataValue::Vector(v) => {
            let mut out: Vec<JsonValue> = Vec::new();
            let mut i: usize = 0;
            while i < v.len()
                invariant
                    i <= v@.len(),
                    json_values_view(out@) == Seq::new(i as nat, |t: int| JsonV::Int(v@[t] as i64)),
                decreases v@.len() - i,
            {
                let ghost before = out@;
                let x = JsonValue::Int(v[i] as i64);
                out.push(x);
                proof {
                    crate::types::lemma_json_values_view_push(before, x);
                    assert(json_values_view(out@) =~= Seq::new((i + 1) as nat, |t: int| JsonV::Int(v@[t] as i64)));
                }
                i += 1;
            }
            JsonValue::Array(out)
        },
    }
}

fn export_items_exec(items: &Vec<DataValue>) -> (r: Vec<JsonValue>)
    ensures
        json_values_view(r@) == export_items(data_values_view(items@)),
    decreases items, 0int,
{
    let ghost iv = data_values_view(items@);
    proof {
        crate::types::lemma_data_values_view_index(items@);
        assert(iv.take(0) =~= Seq::<DataValueV>::empty());
    }
    let mut out: Vec<JsonValue> = Vec::new();
    let mut i: usize = 0;
    while i < items.len()
        invariant
            i <= items@.len(),
            iv == data_values_view(items@),
            iv.len() == items@.len(),
            forall|k: int| 0 <= k < items@.len() ==> #[trigger] iv[k] == items@[k]@,
            json_values_view(out@) == export_items(iv.take(i as int)),
        decreases items.len() - i,
    {
        let j = datavalue_to_json(&items[i]);
        let ghost before = out@;
        out.push(j);
        proof {
            assert(out@.drop_last() =~= before);
            let t = iv.take(i + 1);
            assert(t.drop_last() =~= iv.take(i as int));
            assert(t.last() == items@[i as int]@);
        }
        i += 1;
    }
    assert(iv.take(iv.len() as int) =~= iv);
    out
}

fn export_entries_exec(es: &Vec<(String, DataValue)>) -> (r: Vec<(String, JsonValue)>)
    ensures
        json_entries_view(r@) == export_entries(data_entries_view(es@)),
    decreases es, 0int,
{
    let ghost ev = data_entries_view(es@);
    proof {
        crate::types::lemma_data_entries_view_index(es@);
        assert(ev.take(0) =~= Seq::<(Seq<char>, DataValueV)>::empty());
    }
    let mut out: Vec<(String, JsonValue)> = Vec::new();
    let mut i: usize = 0;
    while i < es.len()
        invariant
            i <= es@.len(),
            ev == data_entries_view(es@),
            ev.len() == es@.len(),
            forall|k: int| 0 <= k < es@.len() ==> #[trigger] ev[k] == (es@[k].0@, es@[k].1@),
            json_entries_view(out@) == export_entries(ev.take(i as int)),
        decreases es.len() - i,
    {
        let j = datavalue_to_json(&es[i].1);
        let k = es[i].0.clone();
        let ghost before = out@;
        out.push((k, j));
        proof {
            assert(out@.drop_last() =~= before);
            let t = ev.take(i + 1);
            assert(t.drop_last() =~= ev.take(i as int));
            assert(t.last() == ev[i as int]);
        }
        i += 1;
    }
    assert(ev.take(ev.len() as int) =~= ev);
    out
}

// ------------------------------------------------------- binary exports

/// The magic bytes that open a binary export: `LIVEN01`.
pub open spec fn binary_magic() -> Seq<u8> {
    seq![76u8, 73u8, 86u8, 69u8, 78u8, 48u8, 49u8]
}

/// A binary export file: the magic bytes, the CRC-32 of the body
/// (big-endian), then the body (the MessagePack of the export).
pub open spec fn export_file(body: Seq<u8>) -> Seq<u8> {
    binary_magic() + be32(crc32_of(body)) + body
}

/// What opening a binary export file gives: its body, or why it is refused.
pub open spec fn spec_open_export(data: Seq<u8>) -> Result<Seq<u8>, Seq<char>> {
    if data.len() < 11 {
        Err("Invalid binary file: too short"@)
    } else if data.subrange(0, 7) != binary_magic() {
        Err("Invalid binary file: wrong magic bytes"@)
    } else if crate::codec::read_be32(data, 7) != crc32_of(data.subrange(11, data.len() as int)) as int {
        Err("Invalid binary file: checksum mismatch"@)
    } else {
        Ok(data.subrange(11, data.len() as int))
    }
}

/// Frames the body of a binary export (see [`export_file`]).
pub fn frame_binary_export(body: &[u8]) -> (r: Vec<u8>)
    ensures
        r@ == export_file(body@),
{
    let mut out: Vec<u8> = Vec::new();
    out.push(76u8);
    out.push(73u8);
    out.push(86u8);
    out.push(69u8);
    out.push(78u8);
    out.push(48u8);
    out.push(49u8);
    let c = crate::codec::be32_bytes(crate::storage::frame::crc32_hash(body));
    out.push(c[0]);
    out.push(c[1]);
    out.push(c[2]);
    out.push(c[3]);
    crate::storage::frame::push_slice(&mut out, body);
    assert(out@ =~= export_file(body@));
    out
}

/// Checks a binary export file and gives its body (see [`spec_open_export`]).
pub fn open_binary_export(data: &[u8]) -> (r: Result<Vec<u8>, String>)
    ensures
        match spec_open_export(data@) {
            Ok(b) => (r matches Ok(v) && v@ == b),
            Err(m) => (r matches Err(e) && e@ == m),
        },
{
    if data.len() < 11 {
        return Err(crate::text::owned("Invalid binary file: too short"));
    }
    let magic_ok = data[0] == 76u8 && data[1] == 73u8 && data[2] == 86u8 && data[3] == 69u8 && data[4] == 78u8
        && data[5] == 48u8 && data[6] == 49u8;
    if !magic_ok {
        proof {
            if data@.subrange(0, 7) == binary_magic() {
                assert(data@.subrange(0, 7)[0] == data@[0]);
                assert(data@[1] == data@.subrange(0, 7)[1]);
                assert(data@[2] == data@.subrange(0, 7)[2]);
                assert(data@[3] == data@.subrange(0, 7)[3]);
                assert(data@[4] == data@.subrange(0, 7)[4]);
                assert(data@[5] == data@.subrange(0, 7)[5]);
                assert(data@[6] == data@.subrange(0, 7)[6]);
            }
        }
        return Err(crate::text::owned("Invalid binary file: wrong magic bytes"));
    }
    assert(data@.subrange(0, 7) =~= binary_magic());
    let body = vstd::slice::slice_subrange(data, 11, data.len());
    let expected = crate::codec::read_be32_exec(data, 7);
    let actual = crate::storage::frame::crc32_hash(body);
    if expected != actual {
        return Err(crate::text::owned("Invalid binary file: checksum mismatch"));
    }
    Ok(crate::codec::copy_bytes(data, 11))
}

/// A framed export opens to its body.
pub proof fn lemma_export_roundtrip(body: Seq<u8>)
    ensures
        spec_open_export(export_file(body)) == Ok::<Seq<u8>, Seq<char>>(body),
{
    let f = export_file(body);
    assert(f.subrange(0, 7) =~= binary_magic());
    assert(f.subrange(11, f.len() as int) =~= body);
    crate::codec::lemma_be32_roundtrip(crc32_of(body));
    assert(f.subrange(7, 11) =~= be32(crc32_of(body)));
    assert(crate::codec::read_be32(f, 7) == crate::codec::read_be32(be32(crc32_of(body)), 0));
}

/// The only version of the binary export format.
pub fn check_export_version(version: u32) -> (r: Result<(), String>)
    ensures
        version == 1 ==> r is Ok,
        version != 1 ==> (r matches Err(e) && e@ == "Unsupported binary format version: "@ + crate::parser::nat_text(
            version as nat,
        )),
{
    if version != 1 {
        let mut m = crate::text::owned("Unsupported binary format version: ");
        m.append(crate::parser::nat_text_exec(version as u64).as_str());
        return Err(m);
    }
    Ok(())
}

// ------------------------------------------------------ JSONL validation

/// The fields of a parsed line of a JSONL import file.
pub struct JsonlFields {
    pub stream: String,
    pub key: String,
    pub value: JsonValue,
}

/// What validating a JSONL file has gathered: the records counted, the
/// streams seen (each once, in order) and the problems found.
pub struct JsonlValidation {
    pub record_count: usize,
    pub streams: Vec<String>,
    pub errors: Vec<String>,
}

/// The model of a validation: count, streams, problems.
pub type JsonlValidationV = (nat, Seq<Seq<char>>, Seq<Seq<char>>);

/// The prefix of a line's problem.
pub open spec fn line_prefix(n: nat) -> Seq<char> {
    "Line "@ + crate::parser::nat_text(n) + ": "@
}

/// The problems of a parsed line, in the order the checks run.
pub open spec fn field_problems(n: nat, stream: Seq<char>, key: Seq<char>, value: JsonV) -> Seq<Seq<char>> {
    let p1: Seq<Seq<char>> = if stream.len() == 0 {
        seq![line_prefix(n) + "Missing required field 'stream'"@]
    } else {
        Seq::empty()
    };
    let p2: Seq<Seq<char>> = if key.len() == 0 {
        seq![line_prefix(n) + "Missing required field 'key'"@]
    } else if vstd::utf8::encode_utf8(key).len() > 32 {
        seq![line_prefix(n) + "Key exceeds 32 bytes: '"@ + key + "'"@]
    } else {
        Seq::empty()
    };
    let p3: Seq<Seq<char>> = match import_value(value) {
        Ok(_) => Seq::empty(),
        Err(e) => seq![line_prefix(n) + "Invalid value: "@ + e],
    };
    p1 + p2 + p3
}

/// Validating line `n` (counting from 1): a blank line is skipped; a line
/// that does not parse adds its problem; a parsed line adds its problems,
/// and counts (with its stream noted) only while no problem has been found
/// in the file so far.
pub open spec fn spec_check_line(
    st: JsonlValidationV,
    n: nat,
    text: Seq<char>,
    parsed: Result<(Seq<char>, Seq<char>, JsonV), Seq<char>>,
) -> JsonlValidationV {
    let (count, streams, errors) = st;
    if crate::text::trim(text).len() == 0 {
        st
    } else {
        match parsed {
            Err(reason) => (count, streams, errors.push(line_prefix(n) + "Invalid JSON: "@ + reason)),
            Ok((stream, key, value)) => {
                let errors2 = errors + field_problems(n, stream, key, value);
                if errors2.len() > 0 {
                    (count, streams, errors2)
                } else {
                    (count + 1, crate::storage::recovery::streams_after(streams, stream), errors2)
                }
            },
        }
    }
}

/// The outcome of a validation: the report, or all problems in one message.
pub open spec fn spec_finish(st: JsonlValidationV) -> Result<(nat, Seq<Seq<char>>), Seq<char>> {
    if st.2.len() > 0 {
        Err("Validation errors:\n"@ + crate::explain::join_text(st.2, "\n"@))
    } else {
        Ok((st.0, st.1))
    }
}

fn push_problem(errors: &mut Vec<String>, n: usize, tail: &str)
    ensures
        strings_view(final(errors)@) == strings_view(old(errors)@).push(line_prefix(n as nat) + tail@),
{
    let mut m = crate::text::owned("Line ");
    m.append(crate::parser::nat_text_exec(n as u64).as_str());
    m.append(": ");
    m.append(tail);
    let ghost before = errors@;
    errors.push(m);
    assert(strings_view(errors@) =~= strings_view(before).push(line_prefix(n as nat) + tail@));
}

impl JsonlValidation {
    /// The model of what has been gathered.
    pub open spec fn state(&self) -> JsonlValidationV {
        (self.record_count as nat, strings_view(self.streams@), strings_view(self.errors@))
    }

    /// Nothing gathered yet.
    pub fn new() -> (r: Self)
        ensures
            r.state() == (0nat, Seq::<Seq<char>>::empty(), Seq::<Seq<char>>::empty()),
    {
        let r = JsonlValidation { record_count: 0, streams: Vec::new(), errors: Vec::new() };
        assert(strings_view(r.streams@) =~= Seq::<Seq<char>>::empty());
        assert(strings_view(r.errors@) =~= Seq::<Seq<char>>::empty());
        r
    }

    /// Validates line `line_num` of the file: its text, and what parsing it
    /// as a record gave (see [`spec_check_line`]).
    pub fn check_line(&mut self, line_num: usize, text: &str, parsed: Result<JsonlFields, String>)
        requires
            old(self).record_count < usize::MAX,
        ensures
            final(self).state() == spec_check_line(
                old(self).state(),
                line_num as nat,
                text@,
                match parsed {
                    Ok(f) => Ok((f.stream@, f.key@, f.value@)),
                    Err(e) => Err(e@),
                },
            ),
    {
        let ghost st0 = self.state();
        let t = crate::text::str_trim(text);
        let tc = crate::text::chars_of(t);
        if tc.len() == 0 {
            return;
        }
        match parsed {
            Err(reason) => {
                let mut tail = crate::text::owned("Invalid JSON: ");
                tail.append(reason.as_str());
                push_problem(&mut self.errors, line_num, tail.as_str());
                assert(line_prefix(line_num as nat) + tail@ =~= line_prefix(line_num as nat) + "Invalid JSON: "@ + reason@);
            },
            Ok(f) => {
                let ghost e0 = strings_view(self.errors@);
                let sbytes = f.stream.as_str().as_bytes();
                let sb = sbytes.len();
                proof {
                    assert(sbytes@ == vstd::utf8::encode_utf8(f.stream@));
                    if f.stream@.len() == 0 {
                        assert(vstd::utf8::encode_utf8(f.stream@) =~= Seq::<u8>::empty());
                    } else {
                        vstd::utf8::encode_utf8_first_scalar(f.stream@);
                    }
                }
                if sb == 0 {
                    push_problem(&mut self.errors, line_num, "Missing required field 'stream'");
                }
                let ghost e1 = strings_view(self.errors@);
                let kbytes = f.key.as_str().as_bytes();
                let kb = kbytes.len();
                proof {
                    assert(kbytes@ == vstd::utf8::encode_utf8(f.key@));
                    if f.key@.len() == 0 {
                        assert(vstd::utf8::encode_utf8(f.key@) =~= Seq::<u8>::empty());
                    } else {
                        vstd::utf8::encode_utf8_first_scalar(f.key@);
                    }
                }
                if kb == 0 {
                    push_problem(&mut self.errors, line_num, "Missing required field 'key'");
                } else if kb > 32 {
                    let mut tail = crate::text::owned("Key exceeds 32 bytes: '");
                    tail.append(f.key.as_str());
                    tail.append("'");
                    push_problem(&mut self.errors, line_num, tail.as_str());
                }
                let ghost e2 = strings_view(self.errors@);
                match json_to_datavalue_with_base64(&f.value) {
                    Ok(_) => {},
                    Err(e) => {
                        let mut tail = crate::text::owned("Invalid value: ");
                        tail.append(e.as_str());
                        push_problem(&mut self.errors, line_num, tail.as_str());
                    },
                }
                proof {
                    let n = line_num as nat;
                    let lp = line_prefix(n);
                    let p1: Seq<Seq<char>> = if f.stream@.len() == 0 {
                        seq![lp + "Missing required field 'stream'"@]
                    } else {
                        Seq::empty()
                    };
                    let p2: Seq<Seq<char>> = if f.key@.len() == 0 {
                        seq![lp + "Missing required field 'key'"@]
                    } else if vstd::utf8::encode_utf8(f.key@).len() > 32 {
                        seq![lp + "Key exceeds 32 bytes: '"@ + f.key@ + "'"@]
                    } else {
                        Seq::empty()
                    };
                    let p3: Seq<Seq<char>> = match import_value(f.value@) {
                        Ok(_) => Seq::empty(),
                        Err(e) => seq![lp + "Invalid value: "@ + e],
                    };
                    assert(e1 =~= e0 + p1);
                    if f.key@.len() != 0 && vstd::utf8::encode_utf8(f.key@).len() > 32 {
                        assert(lp + ("Key exceeds 32 bytes: '"@ + f.key@ + "'"@) =~= lp + "Key exceeds 32 bytes: '"@ + f.key@ + "'"@);
                    }
                    assert(e2 =~= e1 + p2);
                    match import_value(f.value@) {
                        Ok(_) => {},
                        Err(e) => {
                            assert(lp + ("Invalid value: "@ + e) =~= lp + "Invalid value: "@ + e);
                        },
                    }
                    assert(strings_view(self.errors@) =~= e2 + p3);
                    assert(field_problems(n, f.stream@, f.key@, f.value@) == p1 + p2 + p3);
                    assert(strings_view(self.errors@) =~= e0 + field_problems(n, f.stream@, f.key@, f.value@));
                }
                if self.errors.len() == 0 {
                    let known = crate::storage::recovery::contains_string(&self.streams, f.stream.as_str());
                    if !known {
                        let ghost s0 = self.streams@;
                        self.streams.push(f.stream);
                        assert(strings_view(self.streams@) =~= strings_view(s0).push(f.stream@));
                    }
                    self.record_count = self.record_count + 1;
                }
            },
        }
    }

    /// The report, or all problems found (see [`spec_finish`]).
    pub fn finish(self) -> (r: Result<ValidationReport, String>)
        ensures
            match spec_finish(self.state()) {
                Ok((n, s)) => (r matches Ok(rep) && rep.record_count == n && strings_view(rep.streams@) == s),
                Err(m) => (r matches Err(e) && e@ == m),
            },
    {
        if self.errors.len() > 0 {
            let mut m = crate::text::owned("Validation errors:\n");
            m.append(crate::explain::join_texts(&self.errors, "\n").as_str());
            return Err(m);
        }
        Ok(ValidationReport { record_count: self.record_count, streams: self.streams })
    }
}

/// The query that an import runs for one record: an insert of the key with
/// the value's export JSON text, its timestamp, its type tag and its flags.
pub open spec fn import_query_text(
    stream: Seq<char>,
    key: Seq<char>,
    value: DataValueV,
    timestamp: i64,
    type_tag: u8,
    flags: u8,
) -> Seq<char> {
    "from(\""@ + stream + "\").insert([\""@ + key + "\", "@ + crate::json_doc::json_text_of(export_value(value)) + ", "@
        + crate::parser::int_text(timestamp as int) + ", "@ + crate::parser::nat_text(type_tag as nat) + ", "@
        + crate::parser::nat_text(flags as nat) + "])"@
}

/// The query that imports one record; a record without a timestamp takes
/// `now_ms`, one without a type tag that of its value, one without flags 0.
pub fn import_query(
    stream: &str,
    key: &str,
    value: &DataValue,
    timestamp: Option<i64>,
    type_tag: Option<u8>,
    flags: Option<u8>,
    now_ms: i64,
) -> (r: String)
    ensures
        r@ == import_query_text(
            stream@,
            key@,
            value@,
            match timestamp {
                Some(t) => t,
                None => now_ms,
            },
            match type_tag {
                Some(t) => t,
                None => crate::types::spec_type_tag(*value),
            },
            match flags {
                Some(f) => f,
                None => 0,
            },
        ),
{
    let ts = match timestamp {
        Some(t) => t,
        None => now_ms,
    };
    let tag = match type_tag {
        Some(t) => t,
        None => value.type_tag(),
    };
    let fl = match flags {
        Some(f) => f,
        None => 0,
    };
    let mut q = crate::text::owned("from(\"");
    q.append(stream);
    q.append("\").insert([\"");
    q.append(key);
    q.append("\", ");
    let j = crate::json_doc::json_to_text(&datavalue_to_json(value));
    q.append(j.as_str());
    q.append(", ");
    let t = crate::parser::int_text_exec(ts);
    q.append(t.as_str());
    q.append(", ");
    let g = crate::parser::nat_text_exec(tag as u64);
    q.append(g.as_str());
    q.append(", ");
    let f = crate::parser::nat_text_exec(fl as u64);
    q.append(f.as_str());
    q.append("])");
    q
}

} // verus!
