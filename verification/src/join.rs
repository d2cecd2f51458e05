//! Joining and deduplicating records: the texts that keys are looked up by,
//! the time-bounded correlation of records with records of another stream,
//! the key a multi-hop chain follows, and keeping the first record of each
//! distinct value.
use crate::parser::{int_text, int_text_exec, nat_text, nat_text_exec};
use crate::json_doc::json_text_of;
use crate::query_parser::{obj_insert, obj_insert_exec, push_json_text};
use crate::types::strings_view;
use crate::types::{json_entries_view, json_values_view, DataValue, DataValueV, JsonV, JsonValue, Record};
use vstd::prelude::*;
use crate::text::{chars_eq_str, chars_of};
use vstd::string::StringExecFns;

verus! {

/// The text that a join looks a key up by: a string as it is, an integer in
/// decimal. Other kinds of value are looked up by their debug form, which is
/// made outside this crate; they have no text here.
pub open spec fn spec_join_text(v: DataValueV) -> Option<Seq<char>> {
    match v {
        DataValueV::Str(t) => Some(t),
        DataValueV::Int(i) => Some(int_text(i as int)),
        DataValueV::UInt(u) => Some(nat_text(u as nat)),
        _ => None,
    }
}

/// The text that a join looks a key up by (see [`spec_join_text`]).
pub fn join_text(v: &DataValue) -> (r: Option<String>)
    ensures
        crate::cli::opt_view(r) == spec_join_text(v@),
{
    match v {
        DataValue::String(s) => Some(s.clone()),
        DataValue::Int(i) => Some(int_text_exec(*i)),
        DataValue::UInt(u) => Some(nat_text_exec(*u)),
        _ => None,
    }
}

/// A copy of a JSON value.
pub fn copy_json(v: &JsonValue) -> (r: JsonValue)
    ensures
        r@ == v@,
    decreases v,
{
    match v {
        JsonValue::Null => JsonValue::Null,
        JsonValue::Bool(b) => JsonValue::Bool(*b),
        JsonValue::Int(i) => JsonValue::Int(*i),
        JsonValue::UInt(u) => JsonValue::UInt(*u),
        JsonValue::Float(t) => JsonValue::Float(t.clone()),
        JsonValue::String(t) => JsonValue::String(t.clone()),
        JsonValue::Array(items) => {
            let mut out: Vec<JsonValue> = Vec::new();
            let mut i: usize = 0;
            while i < items.len()
                invariant
                    i <= items@.len(),
                    *v == JsonValue::Array(*items),
                    json_values_view(out@) == json_values_view(items@.take(i as int)),
                decreases items.len() - i,
            {
                proof {
                    assert(decreases_to!(*v => (*v)->Array_0));
                    assert(decreases_to!(items => items@));
                    assert(decreases_to!(items@ => items@[i as int]));
                }
                let c = copy_json(&items[i]);
                proof {
                    crate::types::lemma_json_values_view_push(out@, c);
                    crate::types::lemma_json_values_view_push(items@.take(i as int), items@[i as int]);
                    assert(items@.take(i + 1) =~= items@.take(i as int).push(items@[i as int]));
                }
                out.push(c);
                i += 1;
            }
            proof {
                assert(items@.take(i as int) =~= items@);
            }
            JsonValue::Array(out)
        },
        JsonValue::Object(entries) => {
            let mut out: Vec<(String, JsonValue)> = Vec::new();
            let mut i: usize = 0;
            while i < entries.len()
                invariant
                    i <= entries@.len(),
                    *v == JsonValue::Object(*entries),
                    json_entries_view(out@) == json_entries_view(entries@.take(i as int)),
                decreases entries.len() - i,
            {
                proof {
                    assert(decreases_to!(*v => (*v)->Object_0));
                    assert(decreases_to!(entries => entries@));
                    assert(decreases_to!(entries@ => entries@[i as int]));
                    assert(decreases_to!(entries@[i as int] => entries@[i as int].1));
                }
                let c = copy_json(&entries[i].1);
                let k = entries[i].0.clone();
                proof {
                    crate::types::lemma_json_entries_view_push(out@, (k, c));
                    crate::types::lemma_json_entries_view_push(entries@.take(i as int), entries@[i as int]);
                    assert(entries@.take(i + 1) =~= entries@.take(i as int).push(entries@[i as int]));
                }
                out.push((k, c));
                i += 1;
            }
            proof {
                assert(entries@.take(i as int) =~= entries@);
            }
            JsonValue::Object(out)
        },
    }
}

/// One side of a join: the text of the record's join field (none when the
/// record lacks the field), its timestamp, and its document.
pub struct JoinSide {
    pub key: Option<String>,
    pub timestamp: i64,
    pub doc: JsonValue,
}

/// The model of a [`JoinSide`].
pub open spec fn side_view(s: JoinSide) -> (Option<Seq<char>>, i64, JsonV) {
    (crate::cli::opt_view(s.key), s.timestamp, s.doc@)
}

/// The models of join sides.
pub open spec fn sides_view(v: Seq<JoinSide>) -> Seq<(Option<Seq<char>>, i64, JsonV)> {
    v.map_values(|s: JoinSide| side_view(s))
}

/// The documents of the sources with the key whose timestamps lie within
/// `within_ms` of `t` (both ends included), in order.
pub open spec fn matches_of(key: Seq<char>, t: i64, within_ms: u64, sources: Seq<(Option<Seq<char>>, i64, JsonV)>) -> Seq<
    JsonV,
>
    decreases sources.len(),
{
    if sources.len() == 0 {
        Seq::empty()
    } else {
        let p = matches_of(key, t, within_ms, sources.drop_last());
        let s = sources.last();
        if s.0 == Some(key) && t - within_ms <= s.1 && s.1 <= t + within_ms {
            p.push(s.2)
        } else {
            p
        }
    }
}

/// Whether a source record joins a record with key `key` at time `t`: it
/// has the same key and lies at most `within_ms` before or after `t`.
pub open spec fn joins(key: Seq<char>, t: i64, within_ms: u64, s: (Option<Seq<char>>, i64, JsonV)) -> bool {
    s.0 == Some(key) && s.1 - t <= within_ms && t - s.1 <= within_ms
}

/// A correlated object reads, under `correlated_count`, the number of
/// source records that join it.
pub proof fn lemma_correlated_count(
    m: Seq<(Seq<char>, JsonV)>,
    key: Seq<char>,
    t: i64,
    within_ms: u64,
    sources: Seq<(Option<Seq<char>>, i64, JsonV)>,
)
    ensures
        correlated_doc(JsonV::Object(m), matches_of(key, t, within_ms, sources)) matches JsonV::Object(es)
            && crate::card::lookup(es, "correlated_count"@) == Some(
            count_json(
                sources.filter(|s: (Option<Seq<char>>, i64, JsonV)| joins(key, t, within_ms, s)).len(),
            ),
        ),
{
    let ms = matches_of(key, t, within_ms, sources);
    lemma_matches_are_joining_sources(key, t, within_ms, sources);
    lemma_obj_insert_lookup(with_correlated(m, ms), "correlated_count"@, count_json(ms.len()), "correlated_count"@);
}

/// The documents a record is correlated with are those of every source
/// record that joins it, in the sources' order: the joining sources, kept
/// by a filter, and taken by their documents; so there are as many as there
/// are joining sources.
pub proof fn lemma_matches_are_joining_sources(
    key: Seq<char>,
    t: i64,
    within_ms: u64,
    sources: Seq<(Option<Seq<char>>, i64, JsonV)>,
)
    ensures
        matches_of(key, t, within_ms, sources) == sources.filter(
            |s: (Option<Seq<char>>, i64, JsonV)| joins(key, t, within_ms, s),
        ).map_values(|s: (Option<Seq<char>>, i64, JsonV)| s.2),
        matches_of(key, t, within_ms, sources).len() == sources.filter(
            |s: (Option<Seq<char>>, i64, JsonV)| joins(key, t, within_ms, s),
        ).len(),
    decreases sources.len(),
{
    reveal(Seq::filter);
    let pred = |s: (Option<Seq<char>>, i64, JsonV)| joins(key, t, within_ms, s);
    let f = |s: (Option<Seq<char>>, i64, JsonV)| s.2;
    if sources.len() == 0 {
        assert(sources.filter(pred) =~= Seq::<(Option<Seq<char>>, i64, JsonV)>::empty());
        assert(sources.filter(pred).map_values(f) =~= Seq::<JsonV>::empty());
    } else {
        lemma_matches_are_joining_sources(key, t, within_ms, sources.drop_last());
        let sub = sources.drop_last().filter(pred);
        if pred(sources.last()) {
            assert(sub.push(sources.last()).map_values(f) =~= sub.map_values(f).push(sources.last().2));
        }
    }
}

/// The name under which the `n`-th correlated document is set.
pub open spec fn correlated_name(n: nat) -> Seq<char> {
    "correlated_"@ + nat_text(n)
}

/// An object's entries with the matched documents set as `correlated_1`,
/// `correlated_2`, ... in order.
pub open spec fn with_correlated(m: Seq<(Seq<char>, JsonV)>, ms: Seq<JsonV>) -> Seq<(Seq<char>, JsonV)>
    decreases ms.len(),
{
    if ms.len() == 0 {
        m
    } else {
        obj_insert(with_correlated(m, ms.drop_last()), correlated_name(ms.len()), ms.last())
    }
}

/// Setting a key in an object makes a read of that key give the value set,
/// and leaves every other key reading as before.
pub proof fn lemma_obj_insert_lookup(m: Seq<(Seq<char>, JsonV)>, k: Seq<char>, v: JsonV, other: Seq<char>)
    ensures
        crate::card::lookup(obj_insert(m, k, v), k) == Some(v),
        other != k ==> crate::card::lookup(obj_insert(m, k, v), other) == crate::card::lookup(m, other),
    decreases m.len(),
{
    let r = obj_insert(m, k, v);
    if m.len() == 0 {
        assert(r.drop_first() =~= Seq::<(Seq<char>, JsonV)>::empty());
    } else if m[0].0 == k {
        assert(r[0] == (k, v));
        assert(r.drop_first() =~= m.drop_first());
    } else if crate::query_parser::key_lt(k, m[0].0) {
        assert(r[0] == (k, v));
        assert(r.drop_first() =~= m);
    } else {
        lemma_obj_insert_lookup(m.drop_first(), k, v, other);
        assert(r[0] == m[0]);
        assert(r.drop_first() =~= obj_insert(m.drop_first(), k, v));
    }
}

/// A count as a JSON number: an integer when it fits `i64`, else unsigned.
pub open spec fn count_json(n: nat) -> JsonV {
    if n <= i64::MAX {
        JsonV::Int(n as i64)
    } else {
        JsonV::UInt(n as u64)
    }
}

/// A record's document after correlation: when it is an object, the matched
/// documents under `correlated_1`, ... and their number under
/// `correlated_count`; any other document stays as it is.
pub open spec fn correlated_doc(doc: JsonV, ms: Seq<JsonV>) -> JsonV {
    match doc {
        JsonV::Object(m) => JsonV::Object(obj_insert(with_correlated(m, ms), "correlated_count"@, count_json(ms.len()))),
        other => other,
    }
}

/// The correlation of records with the sources: each record that has a
/// join key and at least one source with the same key within the window,
/// by its position, with its correlated document; in order.
pub open spec fn spec_correlate(
    records: Seq<(Option<Seq<char>>, i64, JsonV)>,
    sources: Seq<(Option<Seq<char>>, i64, JsonV)>,
    within_ms: u64,
) -> Seq<(int, JsonV)>
    decreases records.len(),
{
    if records.len() == 0 {
        Seq::empty()
    } else {
        let p = spec_correlate(records.drop_last(), sources, within_ms);
        let r = records.last();
        match r.0 {
            Some(k) => {
                let ms = matches_of(k, r.1, within_ms, sources);
                if ms.len() > 0 {
                    p.push((records.len() - 1, correlated_doc(r.2, ms)))
                } else {
                    p
                }
            },
            None => p,
        }
    }
}

/// The view of correlation results.
pub open spec fn results_view(v: Seq<(usize, JsonValue)>) -> Seq<(int, JsonV)> {
    v.map_values(|e: (usize, JsonValue)| (e.0 as int, e.1@))
}

fn matched_docs(key: &String, t: i64, within_ms: u64, sources: &Vec<JoinSide>) -> (r: Vec<JsonValue>)
    requires
        i64::MIN <= t - within_ms,
        t + within_ms <= i64::MAX,
    ensures
        json_values_view(r@) == matches_of(key@, t, within_ms, sides_view(sources@)),
{
    let ghost sv = sides_view(sources@);
    let lo: i64 = t - within_ms as i64;
    let hi: i64 = t + within_ms as i64;
    let mut out: Vec<JsonValue> = Vec::new();
    let mut i: usize = 0;
    proof {
        assert(sv.take(0) =~= Seq::<(Option<Seq<char>>, i64, JsonV)>::empty());
    }
    while i < sources.len()
        invariant
            i <= sources@.len(),
            sv == sides_view(sources@),
            lo == t - within_ms,
            hi == t + within_ms,
            json_values_view(out@) == matches_of(key@, t, within_ms, sv.take(i as int)),
        decreases sources.len() - i,
    {
        let s = &sources[i];
        proof {
            assert(sv.take(i + 1).drop_last() =~= sv.take(i as int));
            assert(sv.take(i + 1).last() == side_view(sources@[i as int]));
        }
        let same = match &s.key {
            Some(k) => *k == *key,
            None => false,
        };
        if same && lo <= s.timestamp && s.timestamp <= hi {
            let d = copy_json(&s.doc);
            proof {
                crate::types::lemma_json_values_view_push(out@, d);
            }
            out.push(d);
        }
        i += 1;
    }
    proof {
        assert(sv.take(i as int) =~= sv);
    }
    out
}

/// Sets the matched documents and their count on a record's document (see
/// [`correlated_doc`]).
fn correlate_doc(doc: JsonValue, ms: Vec<JsonValue>) -> (r: JsonValue)
    ensures
        r@ == correlated_doc(doc@, json_values_view(ms@)),
{
    let ghost mv = json_values_view(ms@);
    match doc {
        JsonValue::Object(mut m) => {
            let ghost m0 = json_entries_view(m@);
            let n = ms.len();
            let mut rev: Vec<JsonValue> = Vec::new();
            let mut ms = ms;
            proof {
                crate::query_parser::lemma_json_values_view_index(ms@);
            }
            while ms.len() > 0
                invariant
                    rev@.len() + ms@.len() == n,
                    mv.len() == n,
                    forall|j: int| 0 <= j < ms@.len() ==> #[trigger] ms@[j]@ == mv[j],
                    forall|j: int| 0 <= j < rev@.len() ==> #[trigger] rev@[j]@ == mv[n - 1 - j],
                decreases ms.len(),
            {
                let x = ms.pop().unwrap();
                rev.push(x);
            }
            let mut i: usize = 0;
            proof {
                assert(mv.take(0) =~= Seq::<JsonV>::empty());
            }
            while i < n
                invariant
                    i <= n == mv.len(),
                    rev@.len() == n - i,
                    forall|j: int| 0 <= j < rev@.len() ==> #[trigger] rev@[j]@ == mv[n - 1 - j],
                    json_entries_view(m@) == with_correlated(m0, mv.take(i as int)),
                decreases n - i,
            {
                let x = rev.pop().unwrap();
                let mut name = String::from_str("correlated_");
                let num = nat_text_exec((i + 1) as u64);
                name.append(num.as_str());
                proof {
                    assert(x@ == mv[i as int]);
                    assert(mv.take(i + 1).drop_last() =~= mv.take(i as int));
                    assert(mv.take(i + 1).last() == mv[i as int]);
                    assert(name@ == correlated_name((i + 1) as nat));
                }
                obj_insert_exec(&mut m, name, x);
                i += 1;
            }
            proof {
                assert(mv.take(i as int) =~= mv);
            }
            let count = if (n as u64) <= 0x7fff_ffff_ffff_ffffu64 {
                JsonValue::Int(n as i64)
            } else {
                JsonValue::UInt(n as u64)
            };
            obj_insert_exec(&mut m, String::from_str("correlated_count"), count);
            JsonValue::Object(m)
        },
        other => other,
    }
}

/// Correlates records with the sources (see [`spec_correlate`]): gives the
/// position and the new document of each record kept. The window around a
/// record's timestamp must not overflow.
pub fn correlate_records(records: &Vec<JoinSide>, sources: &Vec<JoinSide>, within_ms: u64) -> (r: Vec<(usize, JsonValue)>)
    requires
        forall|i: int|
            0 <= i < records@.len() ==> (#[trigger] records@[i]).key is Some ==> i64::MIN <= records@[i].timestamp
                - within_ms && records@[i].timestamp + within_ms <= i64::MAX,
    ensures
        results_view(r@) == spec_correlate(sides_view(records@), sides_view(sources@), within_ms),
{
    let ghost rv = sides_view(records@);
    let ghost sv = sides_view(sources@);
    let mut out: Vec<(usize, JsonValue)> = Vec::new();
    let mut i: usize = 0;
    proof {
        assert(rv.take(0) =~= Seq::<(Option<Seq<char>>, i64, JsonV)>::empty());
        assert(results_view(out@) =~= Seq::<(int, JsonV)>::empty());
    }
    while i < records.len()
        invariant
            i <= records@.len(),
            rv == sides_view(records@),
            sv == sides_view(sources@),
            forall|j: int|
                0 <= j < records@.len() ==> (#[trigger] records@[j]).key is Some ==> i64::MIN <= records@[j].timestamp
                    - within_ms && records@[j].timestamp + within_ms <= i64::MAX,
            results_view(out@) == spec_correlate(rv.take(i as int), sv, within_ms),
        decreases records.len() - i,
    {
        let rec = &records[i];
        proof {
            assert(rv.take(i + 1).drop_last() =~= rv.take(i as int));
            assert(rv.take(i + 1).last() == side_view(records@[i as int]));
        }
        match &rec.key {
            Some(k) => {
                let ms = matched_docs(k, rec.timestamp, within_ms, sources);
                if ms.len() > 0 {
                    proof {
                        crate::query_parser::lemma_json_values_view_index(ms@);
                    }
                    let d = correlate_doc(copy_json(&rec.doc), ms);
                    let ghost before = out@;
                    out.push((i, d));
                    proof {
                        assert(results_view(out@) =~= results_view(before).push((i as int, d@)));
                    }
                }
            },
            None => {},
        }
        i += 1;
    }
    proof {
        assert(rv.take(i as int) =~= rv);
    }
    out
}

/// The key that a chain follows in a document without the join field: in
/// the first entry whose value is an object holding the field, that field's
/// text (a string as it is, anything else as its JSON text).
pub open spec fn spec_nested_join_key(entries: Seq<(Seq<char>, JsonV)>, field: Seq<char>) -> Option<Seq<char>>
    decreases entries.len(),
{
    if entries.len() == 0 {
        None
    } else {
        match entries[0].1 {
            JsonV::Object(inner) => match crate::card::lookup(inner, field) {
                Some(JsonV::Str(t)) => Some(t),
                Some(other) => Some(json_text_of(other)),
                None => spec_nested_join_key(entries.drop_first(), field),
            },
            _ => spec_nested_join_key(entries.drop_first(), field),
        }
    }
}

/// The key that a chain follows in a document without the join field (see
/// [`spec_nested_join_key`]); none for a document that is not an object.
pub fn nested_join_key(doc: &JsonValue, field: &str) -> (r: Option<String>)
    ensures
        crate::cli::opt_view(r) == (match doc@ {
            JsonV::Object(es) => spec_nested_join_key(es, field@),
            _ => None,
        }),
{
    match doc {
        JsonValue::Object(entries) => {
            let ghost es = json_entries_view(entries@);
            proof {
                crate::query_parser::lemma_json_entries_view_index(entries@);
                assert(es.skip(0) =~= es);
            }
            let mut i: usize = 0;
            while i < entries.len()
                invariant
                    i <= entries@.len(),
                    *doc == JsonValue::Object(*entries),
                    es == json_entries_view(entries@),
                    es.len() == entries@.len(),
                    forall|j: int| 0 <= j < entries@.len() ==> #[trigger] es[j] == (entries@[j].0@, entries@[j].1@),
                    spec_nested_join_key(es, field@) == spec_nested_join_key(es.skip(i as int), field@),
                decreases entries.len() - i,
            {
                proof {
                    assert(es.skip(i as int)[0] == es[i as int]);
                    assert(es.skip(i as int).drop_first() =~= es.skip(i + 1));
                }
                if let JsonValue::Object(inner) = &entries[i].1 {
                    proof {
                        assert(es[i as int].1 == JsonV::Object(json_entries_view(inner@)));
                    }
                    match crate::card::lookup_exec(inner, field) {
                        Some(JsonValue::String(t)) => {
                            proof {
                                let rest = es.skip(i as int);
                                assert(rest.len() > 0);
                                assert(crate::card::lookup(json_entries_view(inner@), field@) == Some(JsonV::Str(t@)));
                                assert(spec_nested_join_key(rest, field@) == Some(t@));
                            }
                            return Some(t.clone());
                        },
                        Some(other) => {
                            let mut s = String::new();
                            push_json_text(&mut s, other);
                            proof {
                                let rest = es.skip(i as int);
                                assert(rest.len() > 0);
                                assert(crate::card::lookup(json_entries_view(inner@), field@) == Some(other@));
                                assert(spec_nested_join_key(rest, field@) == Some(json_text_of(other@)));
                            }
                            return Some(s);
                        },
                        None => {},
                    }
                }
                i += 1;
            }
            proof {
                assert(es.skip(i as int) =~= Seq::<(Seq<char>, JsonV)>::empty());
            }
            None
        },
        _ => None,
    }
}

/// The key that a chain stage looks up for one record: the text of the
/// record's join field where it has one, else the nested key of its stored
/// document (see [`spec_nested_join_key`]); none without either.
pub open spec fn spec_chain_key(field_text: Option<Seq<char>>, doc: Option<JsonV>, field: Seq<char>) -> Option<
    Seq<char>,
> {
    match field_text {
        Some(t) => Some(t),
        None => match doc {
            Some(JsonV::Object(es)) => spec_nested_join_key(es, field),
            _ => None,
        },
    }
}

/// Chooses the key that a chain stage follows from one record, given the
/// text of its join field and its stored document, where it has them.
pub fn chain_key(field_text: Option<String>, doc: &Option<JsonValue>, field: &str) -> (r: Option<String>)
    ensures
        crate::cli::opt_view(r) == spec_chain_key(
            crate::cli::opt_view(field_text),
            match doc {
                Some(d) => Some(d@),
                None => None,
            },
            field@,
        ),
{
    match field_text {
        Some(t) => Some(t),
        None => match doc {
            Some(d) => nested_join_key(d, field),
            None => None,
        },
    }
}

/// The records whose distinct-texts first appear, in order: each record is
/// kept when no earlier record has the same text.
pub open spec fn spec_distinct(rs: Seq<Record>, texts: Seq<Seq<char>>) -> Seq<Record>
    decreases rs.len(),
{
    if rs.len() == 0 || texts.len() != rs.len() {
        Seq::empty()
    } else {
        let p = spec_distinct(rs.drop_last(), texts.drop_last());
        if texts.drop_last().contains(texts.last()) {
            p
        } else {
            p.push(rs.last())
        }
    }
}

/// The text by which `distinct` tells values apart: a missing field or
/// null as the empty text, a boolean as `true` or `false`, a string as it
/// is, an integer in decimal. Floats and other kinds are told apart by texts
/// made outside this crate; they have no text here.
pub open spec fn spec_distinct_text(v: Option<DataValueV>) -> Option<Seq<char>> {
    match v {
        None => Some(Seq::empty()),
        Some(DataValueV::Null) => Some(Seq::empty()),
        Some(DataValueV::Bool(b)) => Some(if b {
            "true"@
        } else {
            "false"@
        }),
        Some(DataValueV::Str(t)) => Some(t),
        Some(DataValueV::Int(i)) => Some(int_text(i as int)),
        Some(DataValueV::UInt(u)) => Some(nat_text(u as nat)),
        _ => None,
    }
}

/// The text by which `distinct` tells values apart (see
/// [`spec_distinct_text`]).
pub fn distinct_text(v: &Option<DataValue>) -> (r: Option<String>)
    ensures
        crate::cli::opt_view(r) == spec_distinct_text(crate::filter::opt_data_view(*v)),
{
    match v {
        None => Some(String::new()),
        Some(DataValue::Null) => Some(String::new()),
        Some(DataValue::Bool(b)) => Some(if *b {
            String::from_str("true")
        } else {
            String::from_str("false")
        }),
        Some(DataValue::String(s)) => Some(s.clone()),
        Some(DataValue::Int(i)) => Some(int_text_exec(*i)),
        Some(DataValue::UInt(u)) => Some(nat_text_exec(*u)),
        _ => None,
    }
}

/// Keeps the first record of each distinct text (see [`spec_distinct`]);
/// `texts` holds one text per record.
pub fn distinct_records(records: Vec<Record>, texts: &Vec<String>) -> (r: Vec<Record>)
    requires
        texts@.len() == records@.len(),
    ensures
        r@ == spec_distinct(records@, texts@.map_values(|s: String| s@)),
{
    let ghost rs = records@;
    let ghost ts = texts@.map_values(|s: String| s@);
    let n = records.len();
    let mut src = records;
    let mut rev: Vec<Record> = Vec::new();
    while src.len() > 0
        invariant
            src@.len() + rev@.len() == n == rs.len(),
            src@ == rs.subrange(0, src@.len() as int),
            forall|t: int| 0 <= t < rev@.len() ==> #[trigger] rev@[t] == rs[n - 1 - t],
        decreases src@.len(),
    {
        let x = src.pop().unwrap();
        rev.push(x);
    }
    let mut out: Vec<Record> = Vec::new();
    let mut seen: Vec<String> = Vec::new();
    let mut i: usize = 0;
    proof {
        assert(rs.take(0) =~= Seq::<Record>::empty());
        assert(ts.take(0) =~= Seq::<Seq<char>>::empty());
        assert(seen@.map_values(|s: String| s@) =~= ts.take(0));
    }
    while i < n
        invariant
            i <= n == rs.len() == ts.len(),
            ts == texts@.map_values(|s: String| s@),
            rev@.len() == n - i,
            forall|t: int| 0 <= t < rev@.len() ==> #[trigger] rev@[t] == rs[n - 1 - t],
            out@ == spec_distinct(rs.take(i as int), ts.take(i as int)),
            seen@.map_values(|s: String| s@) == ts.take(i as int),
        decreases n - i,
    {
        let x = rev.pop().unwrap();
        let t = &texts[i];
        let found = crate::storage::recovery::contains_string(&seen, t);
        proof {
            assert(rs.take(i + 1).drop_last() =~= rs.take(i as int));
            assert(ts.take(i + 1).drop_last() =~= ts.take(i as int));
            assert(rs.take(i + 1).last() == rs[i as int]);
            assert(ts.take(i + 1).last() == ts[i as int]);
            assert(x == rs[i as int]);
            assert(ts[i as int] == t@);
            assert(strings_view(seen@) =~= seen@.map_values(|s: String| s@));
        }
        let ghost before = seen@.map_values(|s: String| s@);
        if !found {
            out.push(x);
        }
        seen.push(t.clone());
        i += 1;
        proof {
            let sv = seen@.map_values(|s: String| s@);
            assert(sv =~= before.push(ts[i - 1]));
            assert(ts.take(i as int) =~= ts.take(i - 1).push(ts[i - 1]));
        }
    }
    proof {
        assert(rs.take(i as int) =~= rs);
        assert(ts.take(i as int) =~= ts);
    }
    out
}


/// A field of a JSON document: only an object has fields.
pub open spec fn doc_field(doc: JsonV, f: Seq<char>) -> Option<JsonV> {
    match doc {
        JsonV::Object(es) => crate::card::lookup(es, f),
        _ => None,
    }
}

/// The document a projection makes, field by field: `key`, `timestamp`,
/// `sequence_id` and `stream` from the record itself; any other field from
/// the record's JSON document when it has one (left out when the document
/// lacks it); without a document, `value` gives the whole value.
pub open spec fn projected(
    record: Record,
    source: Option<JsonV>,
    value_doc: JsonV,
    ps: Seq<Seq<char>>,
) -> Seq<(Seq<char>, JsonV)>
    decreases ps.len(),
{
    if ps.len() == 0 {
        Seq::empty()
    } else {
        let m = projected(record, source, value_doc, ps.drop_last());
        let p = ps.last();
        if p == "key"@ {
            obj_insert(m, p, JsonV::Str(crate::card::key_display(record.key@)))
        } else if p == "timestamp"@ {
            obj_insert(m, p, JsonV::Int(record.timestamp))
        } else if p == "sequence_id"@ {
            obj_insert(m, p, count_json(record.sequence_id as nat))
        } else if p == "stream"@ {
            obj_insert(m, p, JsonV::Str(record.stream_name@))
        } else {
            match source {
                Some(j) => match doc_field(j, p) {
                    Some(v) => obj_insert(m, p, v),
                    None => m,
                },
                None => if p == "value"@ {
                    obj_insert(m, p, value_doc)
                } else {
                    m
                },
            }
        }
    }
}

/// The document a projection makes (see [`projected`]); `source` is the
/// record's JSON document, if its value is JSON text, and `value_doc` its
/// value as JSON.
pub fn project_doc(record: &Record, source: &Option<JsonValue>, value_doc: &JsonValue, projections: &Vec<String>) -> (r:
    JsonValue)
    ensures
        r@ == JsonV::Object(
            projected(
                *record,
                match source {
                    Some(j) => Some(j@),
                    None => None,
                },
                value_doc@,
                projections@.map_values(|s: String| s@),
            ),
        ),
{
    let ghost src = match source {
        Some(j) => Some(j@),
        None => None,
    };
    let ghost ps = projections@.map_values(|s: String| s@);
    let mut m: Vec<(String, JsonValue)> = Vec::new();
    let mut i: usize = 0;
    proof {
        reveal_strlit("key");
        reveal_strlit("timestamp");
        reveal_strlit("sequence_id");
        reveal_strlit("stream");
        reveal_strlit("value");
        assert(ps.take(0) =~= Seq::<Seq<char>>::empty());
        assert(json_entries_view(m@) =~= Seq::<(Seq<char>, JsonV)>::empty());
    }
    while i < projections.len()
        invariant
            i <= projections@.len(),
            ps == projections@.map_values(|s: String| s@),
            src == (match source {
                Some(j) => Some(j@),
                None => None::<JsonV>,
            }),
            json_entries_view(m@) == projected(*record, src, value_doc@, ps.take(i as int)),
        decreases projections.len() - i,
    {
        let p = &projections[i];
        let pc = chars_of(p.as_str());
        proof {
            reveal_strlit("key");
            reveal_strlit("timestamp");
            reveal_strlit("sequence_id");
            reveal_strlit("stream");
            reveal_strlit("value");
            assert(ps.take(i + 1).drop_last() =~= ps.take(i as int));
            assert(ps.take(i + 1).last() == p@);
        }
        if chars_eq_str(pc.as_slice(), "key") {
            let k = record.key.to_string();
            proof {
                if !vstd::utf8::valid_utf8(record.key@) {
                    assert(k@ =~= Seq::<char>::empty());
                }
            }
            obj_insert_exec(&mut m, p.clone(), JsonValue::String(k));
        } else if chars_eq_str(pc.as_slice(), "timestamp") {
            obj_insert_exec(&mut m, p.clone(), JsonValue::Int(record.timestamp));
        } else if chars_eq_str(pc.as_slice(), "sequence_id") {
            let v = if record.sequence_id <= 0x7fff_ffff_ffff_ffffu64 {
                JsonValue::Int(record.sequence_id as i64)
            } else {
                JsonValue::UInt(record.sequence_id)
            };
            obj_insert_exec(&mut m, p.clone(), v);
        } else if chars_eq_str(pc.as_slice(), "stream") {
            obj_insert_exec(&mut m, p.clone(), JsonValue::String(record.stream_name.clone()));
        } else {
            match source {
                Some(j) => {
                    if let JsonValue::Object(es) = j {
                        if let Some(v) = crate::card::lookup_exec(es, p.as_str()) {
                            obj_insert_exec(&mut m, p.clone(), copy_json(v));
                        }
                    }
                },
                None => {
                    if chars_eq_str(pc.as_slice(), "value") {
                        obj_insert_exec(&mut m, p.clone(), copy_json(value_doc));
                    }
                },
            }
        }
        i += 1;
    }
    proof {
        assert(ps.take(i as int) =~= ps);
    }
    JsonValue::Object(m)
}

/// What enrichment does with a record's document and the document of the
/// record it was joined to.
#[derive(Debug, PartialEq)]
pub enum Enrichment {
    /// Both are objects: the joined fields are set on the record's document.
    Merged(JsonValue),
    /// The record has no document and the joined one is an object: the
    /// record takes the joined record's value.
    TakeOther,
    /// Anything else: the record stays as it is.
    Unchanged,
}

/// The model of an [`Enrichment`].
pub enum EnrichmentV {
    Merged(JsonV),
    TakeOther,
    Unchanged,
}

impl View for Enrichment {
    type V = EnrichmentV;

    open spec fn view(&self) -> EnrichmentV {
        match self {
            Enrichment::Merged(d) => EnrichmentV::Merged(d@),
            Enrichment::TakeOther => EnrichmentV::TakeOther,
            Enrichment::Unchanged => EnrichmentV::Unchanged,
        }
    }
}

/// Enrichment of a document (`null` when the record's value is not JSON)
/// with a joined document.
pub open spec fn spec_enrichment(main: JsonV, other: JsonV) -> EnrichmentV {
    match (main, other) {
        (JsonV::Object(_), JsonV::Object(_)) => EnrichmentV::Merged(crate::mutation::merged(main, other)),
        (JsonV::Null, JsonV::Object(_)) => EnrichmentV::TakeOther,
        _ => EnrichmentV::Unchanged,
    }
}

/// Enrichment of a document with a joined document (see
/// [`spec_enrichment`]).
pub fn enrichment(main: JsonValue, other: JsonValue) -> (r: Enrichment)
    ensures
        r@ == spec_enrichment(main@, other@),
{
    match (&main, &other) {
        (JsonValue::Object(_), JsonValue::Object(_)) => Enrichment::Merged(crate::mutation::merge_update(main, other)),
        (JsonValue::Null, JsonValue::Object(_)) => Enrichment::TakeOther,
        _ => Enrichment::Unchanged,
    }
}

} // verus!
