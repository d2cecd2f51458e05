//! Filters on records: reading a field of a record (a system field, or a
//! field of the JSON or MessagePack document it stores), the text operators
//! `contains`, `starts_with` and `ends_with`, and the boolean structure of a
//! filter. How two values order (numbers compare as floating-point numbers)
//! is decided outside this crate and handed in.
use crate::card::key_display;
use crate::json_doc::{doc_field, json_doc_of, msgpack_doc_of, parse_json_doc, parse_msgpack_doc, spec_doc_field};
use crate::shell::{ends_with, occurs_at, occurs_at_exec, occurs_in};
use crate::text::chars_of;
use crate::types::{data_entries_view, data_values_view, DataValue, DataValueV, FilterExpr, FilterExprV, Op, Record};
use vstd::prelude::*;

verus! {

/// The model of an optional value.
pub open spec fn opt_data_view(o: Option<DataValue>) -> Option<DataValueV> {
    match o {
        Some(v) => Some(v@),
        None => None,
    }
}

/// A field of a stored value: of its JSON document when it is text, of its
/// MessagePack document when it is bytes; none otherwise.
pub open spec fn spec_value_field(v: DataValueV, field: Seq<char>) -> Option<DataValueV> {
    match v {
        DataValueV::Str(t) => match json_doc_of(t) {
            Some(d) => spec_doc_field(d, field),
            None => None,
        },
        DataValueV::Binary(b) => match msgpack_doc_of(b) {
            Some(d) => spec_doc_field(d, field),
            None => None,
        },
        _ => None,
    }
}

/// A field of a stored value (see [`spec_value_field`]).
pub fn extract_field(value: &DataValue, field: &str) -> (r: Option<DataValue>)
    ensures
        opt_data_view(r) == spec_value_field(value@, field@),
{
    match value {
        DataValue::String(s) => match parse_json_doc(s.as_str()) {
            Some(d) => doc_field(&d, field),
            None => None,
        },
        DataValue::Binary(b) => match parse_msgpack_doc(b.as_slice()) {
            Some(d) => doc_field(&d, field),
            None => None,
        },
        _ => None,
    }
}

/// A copy of a value.
pub fn copy_value(v: &DataValue) -> (r: DataValue)
    ensures
        r@ == v@,
    decreases v,
{
    match v {
        DataValue::Null => DataValue::Null,
        DataValue::Bool(b) => DataValue::Bool(*b),
        DataValue::Int(i) => DataValue::Int(*i),
        DataValue::UInt(u) => DataValue::UInt(*u),
        DataValue::Float(t) => DataValue::Float(t.clone()),
        DataValue::String(t) => DataValue::String(t.clone()),
        DataValue::Binary(b) => DataValue::Binary(b.clone()),
        DataValue::Vector(x) => DataValue::Vector(x.clone()),
        DataValue::Array(items) => {
            let mut out: Vec<DataValue> = Vec::new();
            let mut i: usize = 0;
            proof {
                crate::types::lemma_data_values_view_index(items@);
            }
            while i < items.len()
                invariant
                    i <= items@.len(),
                    *v == DataValue::Array(*items),
                    data_values_view(out@) == data_values_view(items@.take(i as int)),
                    data_values_view(items@).len() == items@.len(),
                    forall|j: int| 0 <= j < items@.len() ==> #[trigger] data_values_view(items@)[j] == items@[j]@,
                decreases items.len() - i,
            {
                proof {
                    assert(decreases_to!(*v => (*v)->Array_0));
                    assert(decreases_to!(items => items@));
                    assert(decreases_to!(items@ => items@[i as int]));
                }
                let c = copy_value(&items[i]);
                proof {
                    crate::types::lemma_data_values_view_push(out@, c);
                    crate::types::lemma_data_values_view_push(items@.take(i as int), items@[i as int]);
                    assert(items@.take(i + 1) =~= items@.take(i as int).push(items@[i as int]));
                }
                out.push(c);
                i += 1;
            }
            proof {
                assert(items@.take(i as int) =~= items@);
            }
            DataValue::Array(out)
        },
        DataValue::Object(entries) => {
            let mut out: Vec<(String, DataValue)> = Vec::new();
            let mut i: usize = 0;
            while i < entries.len()
                invariant
                    i <= entries@.len(),
                    *v == DataValue::Object(*entries),
                    data_entries_view(out@) == data_entries_view(entries@.take(i as int)),
                decreases entries.len() - i,
            {
                proof {
                    assert(decreases_to!(*v => (*v)->Object_0));
                    assert(decreases_to!(entries => entries@));
                    assert(decreases_to!(entries@ => entries@[i as int]));
                    assert(decreases_to!(entries@[i as int] => entries@[i as int].1));
                }
                let c = copy_value(&entries[i].1);
                let k = entries[i].0.clone();
                let ghost before = out@;
                out.push((k, c));
                proof {
                    assert(out@.drop_last() =~= before);
                    assert(entries@.take(i + 1).drop_last() =~= entries@.take(i as int));
                    assert(entries@.take(i + 1).last() == entries@[i as int]);
                }
                i += 1;
            }
            proof {
                assert(entries@.take(i as int) =~= entries@);
            }
            DataValue::Object(out)
        },
    }
}

/// A field of a record: `key`, `timestamp`, `sequence_id`, `stream` and
/// `value` name the record's own fields; any other name is read from its
/// stored document (see [`spec_value_field`]).
pub open spec fn spec_record_field(r: Record, field: Seq<char>) -> Option<DataValueV> {
    if field == "key"@ {
        Some(DataValueV::Str(key_display(r.key@)))
    } else if field == "timestamp"@ {
        Some(DataValueV::Int(r.timestamp))
    } else if field == "sequence_id"@ {
        Some(DataValueV::UInt(r.sequence_id))
    } else if field == "stream"@ {
        Some(DataValueV::Str(r.stream_name@))
    } else if field == "value"@ {
        Some(r.value@)
    } else {
        spec_value_field(r.value@, field)
    }
}

/// A field of a record (see [`spec_record_field`]).
pub fn evaluate_record_field(record: &Record, field: &str) -> (r: Option<DataValue>)
    ensures
        opt_data_view(r) == spec_record_field(*record, field@),
{
    let f = chars_of(field);
    proof {
        reveal_strlit("key");
        reveal_strlit("timestamp");
        reveal_strlit("sequence_id");
        reveal_strlit("stream");
        reveal_strlit("value");
    }
    if crate::text::chars_eq_str(f.as_slice(), "key") {
        let k = record.key.to_string();
        proof {
            if !vstd::utf8::valid_utf8(record.key@) {
                assert(k@ =~= Seq::<char>::empty());
            }
        }
        Some(DataValue::String(k))
    } else if crate::text::chars_eq_str(f.as_slice(), "timestamp") {
        Some(DataValue::Int(record.timestamp))
    } else if crate::text::chars_eq_str(f.as_slice(), "sequence_id") {
        Some(DataValue::UInt(record.sequence_id))
    } else if crate::text::chars_eq_str(f.as_slice(), "stream") {
        Some(DataValue::String(record.stream_name.clone()))
    } else if crate::text::chars_eq_str(f.as_slice(), "value") {
        Some(copy_value(&record.value))
    } else {
        extract_field(&record.value, field)
    }
}

/// The text operators, decided here; the others compare values.
pub open spec fn is_text_op(op: Op) -> bool {
    op == Op::StartsWith || op == Op::Contains || op == Op::EndsWith
}

/// A text operator on two values: on two strings, whether the first starts
/// with, contains or ends with the second; false on anything else.
pub open spec fn text_match(a: DataValueV, op: Op, b: DataValueV) -> bool {
    match (a, b) {
        (DataValueV::Str(x), DataValueV::Str(y)) => match op {
            Op::StartsWith => occurs_at(x, 0, y),
            Op::Contains => occurs_in(x, y),
            Op::EndsWith => ends_with(x, y),
            _ => false,
        },
        _ => false,
    }
}

/// A text operator on two values (see [`text_match`]).
pub fn text_match_exec(a: &DataValue, op: Op, b: &DataValue) -> (r: bool)
    ensures
        r == text_match(a@, op, b@),
{
    match (a, b) {
        (DataValue::String(x), DataValue::String(y)) => {
            let xc = chars_of(x.as_str());
            let yc = chars_of(y.as_str());
            match op {
                Op::StartsWith => occurs_at_exec(xc.as_slice(), 0, yc.as_slice()),
                Op::Contains => crate::shell::occurs_in_exec(xc.as_slice(), yc.as_slice()),
                Op::EndsWith => crate::shell::ends_with_exec(xc.as_slice(), yc.as_slice()),
                _ => false,
            }
        },
        _ => false,
    }
}

/// The text operators on two strings: `startsWith` holds exactly when the
/// second string is a prefix of the first, `endsWith` exactly when it is a
/// suffix, and `contains` exactly when it is a run of consecutive
/// characters somewhere in the first; a prefix or a suffix is contained.
/// No other operator, and no value that is not a string, matches as text.
pub proof fn lemma_text_operators(x: Seq<char>, y: Seq<char>)
    ensures
        forall|a: DataValueV, op: Op, b: DataValueV|
            !(a is Str && b is Str) ==> !#[trigger] text_match(a, op, b),
        forall|op: Op| !is_text_op(op) ==> !#[trigger] text_match(DataValueV::Str(x), op, DataValueV::Str(y)),
        text_match(DataValueV::Str(x), Op::StartsWith, DataValueV::Str(y)) == (y.len() <= x.len() && x.take(
            y.len() as int,
        ) == y),
        text_match(DataValueV::Str(x), Op::EndsWith, DataValueV::Str(y)) == (y.len() <= x.len() && x.skip(
            x.len() - y.len(),
        ) == y),
        text_match(DataValueV::Str(x), Op::Contains, DataValueV::Str(y)) == (exists|i: int|
            0 <= i && i + y.len() <= x.len() && #[trigger] x.subrange(i, i + y.len()) == y),
        text_match(DataValueV::Str(x), Op::StartsWith, DataValueV::Str(y)) ==> text_match(
            DataValueV::Str(x),
            Op::Contains,
            DataValueV::Str(y),
        ),
        text_match(DataValueV::Str(x), Op::EndsWith, DataValueV::Str(y)) ==> text_match(
            DataValueV::Str(x),
            Op::Contains,
            DataValueV::Str(y),
        ),
{
    if y.len() <= x.len() {
        assert(x.subrange(0, y.len() as int) =~= x.take(y.len() as int));
        assert(x.subrange(x.len() - y.len(), x.len() as int) =~= x.skip(x.len() - y.len()));
    }
    if text_match(DataValueV::Str(x), Op::StartsWith, DataValueV::Str(y)) {
        assert(occurs_at(x, 0, y));
    }
    if text_match(DataValueV::Str(x), Op::EndsWith, DataValueV::Str(y)) {
        assert(occurs_at(x, x.len() - y.len(), y));
    }
    if exists|i: int| 0 <= i && i + y.len() <= x.len() && #[trigger] x.subrange(i, i + y.len()) == y {
        let i = choose|i: int| 0 <= i && i + y.len() <= x.len() && #[trigger] x.subrange(i, i + y.len()) == y;
        assert(occurs_at(x, i, y));
    }
}

/// The number of comparisons in a filter.
pub open spec fn leaf_count(e: FilterExprV) -> nat
    decreases e,
{
    match e {
        FilterExprV::Simple { .. } => 1,
        FilterExprV::And { left, right } => leaf_count(*left) + leaf_count(*right),
        FilterExprV::Or { left, right } => leaf_count(*left) + leaf_count(*right),
        FilterExprV::Not { expr } => leaf_count(*expr),
    }
}

/// The record's value at each comparison of a filter, left to right.
pub open spec fn spec_leaves(r: Record, e: FilterExprV) -> Seq<Option<DataValueV>>
    decreases e,
{
    match e {
        FilterExprV::Simple { field, .. } => seq![spec_record_field(r, field)],
        FilterExprV::And { left, right } => spec_leaves(r, *left) + spec_leaves(r, *right),
        FilterExprV::Or { left, right } => spec_leaves(r, *left) + spec_leaves(r, *right),
        FilterExprV::Not { expr } => spec_leaves(r, *expr),
    }
}

/// Whether a record satisfies a filter. `compared[at..]` holds, for each
/// comparison of the filter from left to right, the outcome of comparing
/// the record's value with the comparison's value (numbers as
/// floating-point numbers); it decides the comparisons that are not text
/// operators. A comparison on a field the record lacks fails.
pub open spec fn spec_filter(r: Record, e: FilterExprV, compared: Seq<bool>, at: int) -> bool
    decreases e,
{
    match e {
        FilterExprV::Simple { field, operator, value } => match spec_record_field(r, field) {
            None => false,
            Some(a) => if is_text_op(operator) {
                text_match(a, operator, value)
            } else {
                compared[at]
            },
        },
        FilterExprV::And { left, right } => spec_filter(r, *left, compared, at) && spec_filter(
            r,
            *right,
            compared,
            at + leaf_count(*left),
        ),
        FilterExprV::Or { left, right } => spec_filter(r, *left, compared, at) || spec_filter(
            r,
            *right,
            compared,
            at + leaf_count(*left),
        ),
        FilterExprV::Not { expr } => !spec_filter(r, *expr, compared, at),
    }
}

/// The record's value at each comparison of a filter (see
/// [`spec_leaves`]).
pub fn filter_leaf_values(record: &Record, expr: &FilterExpr) -> (r: Vec<Option<DataValue>>)
    ensures
        r@.map_values(|o: Option<DataValue>| opt_data_view(o)) == spec_leaves(*record, expr@),
        r@.len() == leaf_count(expr@),
    decreases expr,
{
    match expr {
        FilterExpr::Simple { field, .. } => {
            let mut v: Vec<Option<DataValue>> = Vec::new();
            v.push(evaluate_record_field(record, field.as_str()));
            proof {
                assert(v@.map_values(|o: Option<DataValue>| opt_data_view(o)) =~= spec_leaves(*record, expr@));
            }
            v
        },
        FilterExpr::And { left, right } | FilterExpr::Or { left, right } => {
            let mut a = filter_leaf_values(record, left);
            let mut b = filter_leaf_values(record, right);
            let ghost av = a@;
            let ghost bv = b@;
            a.append(&mut b);
            proof {
                assert(a@.map_values(|o: Option<DataValue>| opt_data_view(o)) =~= av.map_values(
                    |o: Option<DataValue>| opt_data_view(o),
                ) + bv.map_values(|o: Option<DataValue>| opt_data_view(o)));
            }
            a
        },
        FilterExpr::Not { expr: inner } => filter_leaf_values(record, inner),
    }
}

fn filter_at(record: &Record, expr: &FilterExpr, compared: &Vec<bool>, at: usize) -> (r: bool)
    requires
        at + leaf_count(expr@) <= compared@.len(),
    ensures
        r == spec_filter(*record, expr@, compared@, at as int),
    decreases expr,
{
    match expr {
        FilterExpr::Simple { field, operator, value } => match evaluate_record_field(record, field.as_str()) {
            None => false,
            Some(a) => {
                if matches!(operator, Op::StartsWith | Op::Contains | Op::EndsWith) {
                    text_match_exec(&a, *operator, value)
                } else {
                    compared[at]
                }
            },
        },
        FilterExpr::And { left, right } => {
            assert(compared@.len() == compared.len());
            let n = leaf_count_exec(left);
            filter_at(record, left, compared, at) && filter_at(record, right, compared, at + n)
        },
        FilterExpr::Or { left, right } => {
            assert(compared@.len() == compared.len());
            let n = leaf_count_exec(left);
            filter_at(record, left, compared, at) || filter_at(record, right, compared, at + n)
        },
        FilterExpr::Not { expr: inner } => !filter_at(record, inner, compared, at),
    }
}

/// The number of comparisons in a filter.
pub fn leaf_count_exec(expr: &FilterExpr) -> (n: usize)
    requires
        leaf_count(expr@) <= usize::MAX,
    ensures
        n == leaf_count(expr@),
    decreases expr,
{
    match expr {
        FilterExpr::Simple { .. } => 1,
        FilterExpr::And { left, right } | FilterExpr::Or { left, right } => leaf_count_exec(left)
            + leaf_count_exec(right),
        FilterExpr::Not { expr: inner } => leaf_count_exec(inner),
    }
}

/// Whether a record satisfies a filter (see [`spec_filter`]); `compared`
/// holds one outcome per comparison of the filter, left to right.
pub fn filter_record(record: &Record, expr: &FilterExpr, compared: &Vec<bool>) -> (r: bool)
    requires
        compared@.len() == leaf_count(expr@),
    ensures
        r == spec_filter(*record, expr@, compared@, 0),
{
    filter_at(record, expr, compared, 0)
}

} // verus!
