//! Whole queries: the JSON-like values that write actions carry, and the
//! query forms (`streams`, `status`, `drop(..)`, a pipeline, or a pipeline
//! followed by `.insert(..)`, `.upsert(..)`, `.update(..)`, `.delete(..)` or
//! `.empty()`).
use crate::parser::{
    agrees, agrees3, digits_end, digits_end_exec, digits_value, digits_value_exec, has_char, has_char_exec,
    has_lit, has_lit_exec, int_text, lemma_digits_end, lemma_ws_end, lower_eq, lower_eq_exec, nat_text,
    parse_number, parse_string_literal, parse_string_or_ident, spec_number, spec_string_literal,
    spec_string_or_ident, substring, ws_end, ws_end_exec, Parsed, Res,
};
use crate::text::{chars_of, owned, string_of, trim};
use crate::types::{json_entries_view, json_values_view, DataValue, DataValueV, JsonV, JsonValue};
use vstd::prelude::*;
use vstd::string::StringExecFns;

verus! {

// ------------------------------------------------------------ scalar tokens

/// A character that can stand in a bare (unquoted) value.
pub open spec fn is_token_char(c: char) -> bool {
    c != ',' && c != '}' && c != ']'
}

/// The position after the bare-value characters that start at `p`.
pub open spec fn token_end(s: Seq<char>, p: int) -> int
    decreases s.len() - p,
{
    if 0 <= p < s.len() && is_token_char(s[p]) {
        token_end(s, p + 1)
    } else {
        p
    }
}

/// 1 when the text starts with `+` or `-`, else 0.
pub open spec fn sign_len(t: Seq<char>) -> int {
    if t.len() > 0 && (t[0] == '+' || t[0] == '-') {
        1
    } else {
        0
    }
}

/// Whether the text reads as an `i64` (std `i64::from_str`): an optional
/// sign, then ASCII digits whose value fits.
pub open spec fn is_i64_text(t: Seq<char>) -> bool {
    let a = sign_len(t);
    &&& t.len() > a
    &&& digits_end(t, a) == t.len()
    &&& if t[0] == '-' {
        digits_value(t, a, t.len() as int) <= 0x8000_0000_0000_0000
    } else {
        digits_value(t, a, t.len() as int) <= 0x7fff_ffff_ffff_ffff
    }
}

/// The `i64` that such a text denotes.
pub open spec fn i64_of_text(t: Seq<char>) -> i64 {
    let v = digits_value(t, sign_len(t), t.len() as int);
    if t[0] == '-' {
        (0 - v) as i64
    } else {
        v as i64
    }
}

/// Whether the characters from `a` on are a decimal number with an optional
/// exponent: digits, or digits `.` digits with digits on at least one side,
/// then optionally `e` or `E`, a sign and digits.
pub open spec fn is_decimal_number(t: Seq<char>, a: int) -> bool {
    let d1 = digits_end(t, a);
    let d2 = if has_char(t, d1, '.') {
        digits_end(t, d1 + 1)
    } else {
        d1
    };
    let frac = if has_char(t, d1, '.') {
        d2 - (d1 + 1)
    } else {
        0
    };
    &&& (d1 > a || frac > 0)
    &&& (d2 == t.len() || ((has_char(t, d2, 'e') || has_char(t, d2, 'E')) && {
        let x = if has_char(t, d2 + 1, '+') || has_char(t, d2 + 1, '-') {
            d2 + 2
        } else {
            d2 + 1
        };
        digits_end(t, x) > x && digits_end(t, x) == t.len()
    }))
}

/// Whether the text reads as an `f64` (std `f64::from_str`): an optional
/// sign, then `inf`, `infinity` or `nan` in any case, or a decimal number.
pub open spec fn is_f64_text(t: Seq<char>) -> bool {
    let a = sign_len(t);
    let body = t.subrange(a, t.len() as int);
    lower_eq(body, "inf"@) || lower_eq(body, "infinity"@) || lower_eq(body, "nan"@)
        || is_decimal_number(t, a)
}

/// The value of a bare token: its trimmed text read as `true`, `false`,
/// `null`, an `i64`, an `f64` (kept as text), or else as a string.
pub open spec fn classify_token(t: Seq<char>) -> JsonV {
    let u = trim(t);
    if u == "true"@ {
        JsonV::Bool(true)
    } else if u == "false"@ {
        JsonV::Bool(false)
    } else if u == "null"@ {
        JsonV::Null
    } else if is_i64_text(u) {
        JsonV::Int(i64_of_text(u))
    } else if is_f64_text(u) {
        JsonV::Float(u)
    } else {
        JsonV::Str(u)
    }
}

/// The JSON value of a number literal.
pub open spec fn num_to_json(v: DataValueV) -> JsonV {
    match v {
        DataValueV::Int(i) => JsonV::Int(i),
        DataValueV::UInt(u) => JsonV::UInt(u),
        DataValueV::Float(t) => JsonV::Float(t),
        _ => JsonV::Null,
    }
}

/// A scalar value: a string literal, a number, `true`, `false`, `null`, or a
/// bare token up to the next `,`, `}` or `]`.
pub open spec fn spec_js_value(s: Seq<char>, p: int) -> Res<JsonV> {
    match spec_string_literal(s, p) {
        Res::Done(t, e) => Res::Done(JsonV::Str(t), e),
        _ => match spec_number(s, p) {
            Res::Done(v, e) => Res::Done(num_to_json(v), e),
            Res::Abort => Res::Abort,
            Res::NoMatch => if has_lit(s, p, "true"@) {
                Res::Done(JsonV::Bool(true), p + 4)
            } else if has_lit(s, p, "false"@) {
                Res::Done(JsonV::Bool(false), p + 5)
            } else if has_lit(s, p, "null"@) {
                Res::Done(JsonV::Null, p + 4)
            } else if token_end(s, p) > p {
                Res::Done(classify_token(s.subrange(p, token_end(s, p))), token_end(s, p))
            } else {
                Res::NoMatch
            },
        },
    }
}

fn token_end_exec(s: &[char], p: usize) -> (r: usize)
    requires
        p <= s@.len(),
    ensures
        r == token_end(s@, p as int),
        p <= r <= s@.len(),
{
    let mut i = p;
    while i < s.len() && s[i] != ',' && s[i] != '}' && s[i] != ']'
        invariant
            p <= i <= s@.len(),
            token_end(s@, p as int) == token_end(s@, i as int),
        decreases s.len() - i,
    {
        i += 1;
    }
    i
}

fn sign_len_exec(t: &[char]) -> (r: usize)
    ensures
        r as int == sign_len(t@),
{
    if t.len() > 0 && (t[0] == '+' || t[0] == '-') {
        1
    } else {
        0
    }
}

/// Reads a text as an `i64` the way std does, or `None`.
pub fn i64_of_text_exec(t: &[char]) -> (r: Option<i64>)
    ensures
        r matches Some(v) ==> is_i64_text(t@) && v == i64_of_text(t@),
        r is None ==> !is_i64_text(t@),
{
    let len = t.len();
    let a = sign_len_exec(t);
    if len <= a {
        return None;
    }
    let d = digits_end_exec(t, a);
    if d != len {
        return None;
    }
    match digits_value_exec(t, a, len) {
        Some(v) => {
            if t[0] == '-' {
                if v <= 0x8000_0000_0000_0000 {
                    if v == 0x8000_0000_0000_0000 {
                        Some(i64::MIN)
                    } else {
                        Some(0 - (v as i64))
                    }
                } else {
                    None
                }
            } else if v <= 0x7fff_ffff_ffff_ffff {
                Some(v as i64)
            } else {
                None
            }
        },
        None => None,
    }
}

fn is_decimal_number_exec(t: &[char], a: usize) -> (r: bool)
    requires
        a <= t@.len(),
    ensures
        r == is_decimal_number(t@, a as int),
{
    let len = t.len();
    let d1 = digits_end_exec(t, a);
    let dot = has_char_exec(t, d1, '.');
    let d2 = if dot {
        digits_end_exec(t, d1 + 1)
    } else {
        d1
    };
    let frac = if dot {
        d2 - (d1 + 1)
    } else {
        0
    };
    if !(d1 > a || frac > 0) {
        return false;
    }
    if d2 == len {
        return true;
    }
    if !(has_char_exec(t, d2, 'e') || has_char_exec(t, d2, 'E')) {
        return false;
    }
    let x = if has_char_exec(t, d2 + 1, '+') || has_char_exec(t, d2 + 1, '-') {
        d2 + 2
    } else {
        d2 + 1
    };
    let de = digits_end_exec(t, x);
    de > x && de == len
}

/// Whether a text reads as an `f64` the way std does.
pub fn is_f64_text_exec(t: &[char]) -> (r: bool)
    ensures
        r == is_f64_text(t@),
{
    let a = sign_len_exec(t);
    let body = substring(t, a, t.len());
    lower_eq_exec(body.as_str(), "inf") || lower_eq_exec(body.as_str(), "infinity") || lower_eq_exec(
        body.as_str(),
        "nan",
    ) || is_decimal_number_exec(t, a)
}

/// Whether a float text names an infinity or NaN: an optional sign, then
/// `inf`, `infinity` or `nan` in any case.
pub open spec fn is_non_finite_word(t: Seq<char>) -> bool {
    let body = t.subrange(sign_len(t), t.len() as int);
    lower_eq(body, "inf"@) || lower_eq(body, "infinity"@) || lower_eq(body, "nan"@)
}

/// Whether a float text names an infinity or NaN (see [`is_non_finite_word`]).
pub fn is_non_finite_word_exec(t: &[char]) -> (r: bool)
    ensures
        r == is_non_finite_word(t@),
{
    let a = sign_len_exec(t);
    let body = substring(t, a, t.len());
    lower_eq_exec(body.as_str(), "inf") || lower_eq_exec(body.as_str(), "infinity") || lower_eq_exec(
        body.as_str(),
        "nan",
    )
}

/// The value of a bare token (see [`classify_token`]).
pub fn classify_token_exec(t: &[char]) -> (r: JsonValue)
    ensures
        r@ == classify_token(t@),
{
    let raw = string_of(t);
    let u = crate::text::str_trim(raw.as_str());
    let uc = chars_of(u);
    proof {
        reveal_strlit("true");
        reveal_strlit("false");
        reveal_strlit("null");
    }
    if crate::text::chars_eq_str(uc.as_slice(), "true") {
        JsonValue::Bool(true)
    } else if crate::text::chars_eq_str(uc.as_slice(), "false") {
        JsonValue::Bool(false)
    } else if crate::text::chars_eq_str(uc.as_slice(), "null") {
        JsonValue::Null
    } else {
        match i64_of_text_exec(uc.as_slice()) {
            Some(i) => JsonValue::Int(i),
            None => if is_f64_text_exec(uc.as_slice()) {
                JsonValue::Float(owned(u))
            } else {
                JsonValue::String(owned(u))
            },
        }
    }
}

pub fn parse_js_value(s: &[char], p: usize) -> (r: Parsed<JsonValue>)
    requires
        p <= s@.len(),
    ensures
        r matches Parsed::Done(_, q) ==> q <= s@.len(),
        agrees3(r, spec_js_value(s@, p as int)),
{
    let len = s.len();
    proof {
        reveal_strlit("true");
        reveal_strlit("false");
        reveal_strlit("null");
    }
    if let Some((t, e)) = parse_string_literal(s, p) {
        return Parsed::Done(JsonValue::String(t), e);
    }
    match parse_number(s, p) {
        Parsed::Done(v, e) => {
            let j = match v {
                DataValue::Int(i) => JsonValue::Int(i),
                DataValue::UInt(u) => JsonValue::UInt(u),
                DataValue::Float(t) => JsonValue::Float(t),
                _ => JsonValue::Null,
            };
            return Parsed::Done(j, e);
        },
        Parsed::Stop => {
            return Parsed::Stop;
        },
        Parsed::NoMatch => {},
    }
    if has_lit_exec(s, p, "true") {
        Parsed::Done(JsonValue::Bool(true), p + 4)
    } else if has_lit_exec(s, p, "false") {
        Parsed::Done(JsonValue::Bool(false), p + 5)
    } else if has_lit_exec(s, p, "null") {
        Parsed::Done(JsonValue::Null, p + 4)
    } else {
        let e = token_end_exec(s, p);
        if e > p {
            Parsed::Done(classify_token_exec(slice_sub(s, p, e)), e)
        } else {
            Parsed::NoMatch
        }
    }
}

fn slice_sub(s: &[char], a: usize, b: usize) -> (r: &[char])
    requires
        a <= b <= s@.len(),
    ensures
        r@ == s@.subrange(a as int, b as int),
{
    vstd::slice::slice_subrange(s, a, b)
}


// ------------------------------------------------------- compound values

/// String order (std `Ord for String`): character by character by code
/// point, a proper prefix first.
pub open spec fn key_lt(a: Seq<char>, b: Seq<char>) -> bool
    decreases a.len(),
{
    if a.len() == 0 {
        b.len() > 0
    } else if b.len() == 0 {
        false
    } else if a[0] != b[0] {
        (a[0] as u32) < (b[0] as u32)
    } else {
        key_lt(a.drop_first(), b.drop_first())
    }
}

/// An object's entries after setting `k` to `v`: entries stay in ascending
/// key order, an existing entry for `k` is replaced.
pub open spec fn obj_insert(m: Seq<(Seq<char>, JsonV)>, k: Seq<char>, v: JsonV) -> Seq<(Seq<char>, JsonV)>
    decreases m.len(),
{
    if m.len() == 0 {
        seq![(k, v)]
    } else if m[0].0 == k {
        seq![(k, v)] + m.drop_first()
    } else if key_lt(k, m[0].0) {
        seq![(k, v)] + m
    } else {
        seq![m[0]] + obj_insert(m.drop_first(), k, v)
    }
}

/// The object that the pairs build, later pairs replacing earlier ones.
pub open spec fn obj_from(pairs: Seq<(Seq<char>, JsonV)>) -> Seq<(Seq<char>, JsonV)>
    decreases pairs.len(),
{
    if pairs.len() == 0 {
        Seq::empty()
    } else {
        obj_insert(obj_from(pairs.drop_last()), pairs.last().0, pairs.last().1)
    }
}

/// Any value: an object, an array, or a scalar.
pub open spec fn spec_js_any(s: Seq<char>, p: int) -> Res<JsonV>
    decreases s.len() - p, 6int,
{
    if p < 0 || p > s.len() {
        Res::NoMatch
    } else {
        match spec_js_object(s, p) {
            Res::NoMatch => match spec_js_array(s, p) {
                Res::NoMatch => spec_js_value(s, p),
                r => r,
            },
            r => r,
        }
    }
}

/// `[`, values separated by `,`, `]`, with whitespace around.
pub open spec fn spec_js_array(s: Seq<char>, p: int) -> Res<JsonV>
    decreases s.len() - p, 4int,
{
    if p < 0 || p > s.len() || !has_char(s, p, '[') {
        Res::NoMatch
    } else {
        let q = ws_end(s, p + 1);
        proof {
            lemma_ws_end(s, p + 1);
        }
        match spec_js_list(s, q) {
            Res::Done(items, e) => {
                let e2 = ws_end(s, e);
                if has_char(s, e2, ']') {
                    Res::Done(JsonV::Array(items), e2 + 1)
                } else {
                    Res::NoMatch
                }
            },
            Res::NoMatch => Res::NoMatch,
            Res::Abort => Res::Abort,
        }
    }
}

/// Values separated by `,` (possibly none), starting at `q`.
pub open spec fn spec_js_list(s: Seq<char>, q: int) -> Res<Seq<JsonV>>
    decreases s.len() - q, 7int,
{
    if q < 0 || q > s.len() {
        Res::NoMatch
    } else {
        match spec_js_any(s, q) {
            Res::NoMatch => Res::Done(Seq::empty(), q),
            Res::Abort => Res::Abort,
            Res::Done(v, e) => if q < e <= s.len() {
                crate::parser::prepend(seq![v], spec_js_list_rest(s, e))
            } else {
                Res::NoMatch
            },
        }
    }
}

/// The values after the first one.
pub open spec fn spec_js_list_rest(s: Seq<char>, p: int) -> Res<Seq<JsonV>>
    decreases s.len() - p, 8int,
{
    if p < 0 || p > s.len() {
        Res::NoMatch
    } else {
        let q1 = ws_end(s, p);
        proof {
            lemma_ws_end(s, p);
        }
        if !has_char(s, q1, ',') {
            Res::Done(Seq::empty(), p)
        } else {
            let q = ws_end(s, q1 + 1);
            proof {
                lemma_ws_end(s, q1 + 1);
            }
            match spec_js_any(s, q) {
                Res::NoMatch => Res::Done(Seq::empty(), p),
                Res::Abort => Res::Abort,
                Res::Done(v, e) => if q < e <= s.len() {
                    crate::parser::prepend(seq![v], spec_js_list_rest(s, e))
                } else {
                    Res::NoMatch
                },
            }
        }
    }
}

/// `key : value` with whitespace around each part; the key a string
/// literal or an identifier.
pub open spec fn spec_js_pair(s: Seq<char>, q: int) -> Res<(Seq<char>, JsonV)>
    decreases s.len() - q, 3int,
{
    if q < 0 || q > s.len() {
        Res::NoMatch
    } else {
        let k0 = ws_end(s, q);
        proof {
            lemma_ws_end(s, q);
        }
        match spec_string_or_ident(s, k0) {
            Res::Done(k, e1) => if k0 < e1 <= s.len() {
                let c = ws_end(s, e1);
                proof {
                    lemma_ws_end(s, e1);
                }
                if has_char(s, c, ':') {
                    let v0 = ws_end(s, c + 1);
                    proof {
                        lemma_ws_end(s, c + 1);
                    }
                    match spec_js_any(s, v0) {
                        Res::Done(v, e3) => Res::Done((k, v), ws_end(s, e3)),
                        Res::NoMatch => Res::NoMatch,
                        Res::Abort => Res::Abort,
                    }
                } else {
                    Res::NoMatch
                }
            } else {
                Res::NoMatch
            },
            _ => Res::NoMatch,
        }
    }
}

/// Pairs separated by `,` (possibly none), starting at `q`.
pub open spec fn spec_js_pairs(s: Seq<char>, q: int) -> Res<Seq<(Seq<char>, JsonV)>>
    decreases s.len() - q, 9int,
{
    if q < 0 || q > s.len() {
        Res::NoMatch
    } else {
        match spec_js_pair(s, q) {
            Res::NoMatch => Res::Done(Seq::empty(), q),
            Res::Abort => Res::Abort,
            Res::Done(v, e) => if q < e <= s.len() {
                crate::parser::prepend(seq![v], spec_js_pairs_rest(s, e))
            } else {
                Res::NoMatch
            },
        }
    }
}

/// The pairs after the first one.
pub open spec fn spec_js_pairs_rest(s: Seq<char>, p: int) -> Res<Seq<(Seq<char>, JsonV)>>
    decreases s.len() - p, 10int,
{
    if p < 0 || p > s.len() {
        Res::NoMatch
    } else {
        let q1 = ws_end(s, p);
        proof {
            lemma_ws_end(s, p);
        }
        if !has_char(s, q1, ',') {
            Res::Done(Seq::empty(), p)
        } else {
            let q = ws_end(s, q1 + 1);
            proof {
                lemma_ws_end(s, q1 + 1);
            }
            match spec_js_pair(s, q) {
                Res::NoMatch => Res::Done(Seq::empty(), p),
                Res::Abort => Res::Abort,
                Res::Done(v, e) => if q < e <= s.len() {
                    crate::parser::prepend(seq![v], spec_js_pairs_rest(s, e))
                } else {
                    Res::NoMatch
                },
            }
        }
    }
}

/// `{`, pairs separated by `,`, `}`, with whitespace around.
pub open spec fn spec_js_object(s: Seq<char>, p: int) -> Res<JsonV>
    decreases s.len() - p, 5int,
{
    if p < 0 || p > s.len() || !has_char(s, p, '{') {
        Res::NoMatch
    } else {
        let q = ws_end(s, p + 1);
        proof {
            lemma_ws_end(s, p + 1);
        }
        match spec_js_pairs(s, q) {
            Res::Done(pairs, e) => {
                let e2 = ws_end(s, e);
                if has_char(s, e2, '}') {
                    Res::Done(JsonV::Object(obj_from(pairs)), e2 + 1)
                } else {
                    Res::NoMatch
                }
            },
            Res::NoMatch => Res::NoMatch,
            Res::Abort => Res::Abort,
        }
    }
}


/// The entries' models are the entries taken one by one.
pub proof fn lemma_json_entries_view_index(v: Seq<(String, JsonValue)>)
    ensures
        json_entries_view(v).len() == v.len(),
        forall|i: int| 0 <= i < v.len() ==> #[trigger] json_entries_view(v)[i] == (v[i].0@, v[i].1@),
    decreases v.len(),
{
    if v.len() > 0 {
        lemma_json_entries_view_index(v.drop_last());
        assert(json_entries_view(v) == json_entries_view(v.drop_last()).push((v.last().0@, v.last().1@)));
        assert forall|i: int| 0 <= i < v.len() implies #[trigger] json_entries_view(v)[i] == (
            v[i].0@,
            v[i].1@,
        ) by {
            if i < v.len() - 1 {
                assert(v.drop_last()[i] == v[i]);
            }
        }
    }
}

/// The values' models are the values taken one by one.
pub proof fn lemma_json_values_view_index(v: Seq<JsonValue>)
    ensures
        json_values_view(v).len() == v.len(),
        forall|i: int| 0 <= i < v.len() ==> #[trigger] json_values_view(v)[i] == v[i]@,
    decreases v.len(),
{
    if v.len() > 0 {
        lemma_json_values_view_index(v.drop_last());
        assert(json_values_view(v) == json_values_view(v.drop_last()).push(v.last()@));
        assert forall|i: int| 0 <= i < v.len() implies #[trigger] json_values_view(v)[i] == v[i]@ by {
            if i < v.len() - 1 {
                assert(v.drop_last()[i] == v[i]);
            }
        }
    }
}

/// Inserting into an object where the keys before `i` all sort before `k`
/// and the one at `i` (if any) does not.
proof fn lemma_obj_insert_at(m: Seq<(Seq<char>, JsonV)>, k: Seq<char>, v: JsonV, i: int)
    requires
        0 <= i <= m.len(),
        forall|j: int| 0 <= j < i ==> (#[trigger] m[j]).0 != k && !key_lt(k, m[j].0),
        i < m.len() ==> (m[i].0 == k || key_lt(k, m[i].0)),
    ensures
        obj_insert(m, k, v) == (if i < m.len() && m[i].0 == k {
            m.subrange(0, i) + seq![(k, v)] + m.subrange(i + 1, m.len() as int)
        } else {
            m.subrange(0, i) + seq![(k, v)] + m.subrange(i, m.len() as int)
        }),
    decreases i,
{
    if i == 0 {
        if m.len() > 0 && m[0].0 == k {
            assert(m.drop_first() =~= m.subrange(1, m.len() as int));
        }
        assert(m.subrange(0, 0) + seq![(k, v)] + m.subrange(0, m.len() as int) =~= seq![(k, v)] + m);
        assert(m.subrange(0, 0) + seq![(k, v)] + m.subrange(1, m.len() as int) =~= seq![(k, v)]
            + m.subrange(1, m.len() as int));
    } else {
        let t = m.drop_first();
        assert forall|j: int| 0 <= j < i - 1 implies (#[trigger] t[j]).0 != k && !key_lt(k, t[j].0) by {
            assert(t[j] == m[j + 1]);
        }
        lemma_obj_insert_at(t, k, v, i - 1);
        assert(m[0].0 != k && !key_lt(k, m[0].0));
        if i < m.len() && m[i].0 == k {
            assert(seq![m[0]] + (t.subrange(0, i - 1) + seq![(k, v)] + t.subrange(i, t.len() as int))
                =~= m.subrange(0, i) + seq![(k, v)] + m.subrange(i + 1, m.len() as int));
        } else {
            assert(seq![m[0]] + (t.subrange(0, i - 1) + seq![(k, v)] + t.subrange(i - 1, t.len() as int))
                =~= m.subrange(0, i) + seq![(k, v)] + m.subrange(i, m.len() as int));
        }
    }
}

/// Whether `a` sorts before `b` (see [`key_lt`]).
pub fn key_lt_exec(a: &[char], b: &[char]) -> (r: bool)
    ensures
        r == key_lt(a@, b@),
{
    let mut i: usize = 0;
    assert(a@.subrange(0, a@.len() as int) =~= a@);
    assert(b@.subrange(0, b@.len() as int) =~= b@);
    while i < a.len() && i < b.len() && a[i] == b[i]
        invariant
            i <= a@.len(),
            i <= b@.len(),
            key_lt(a@, b@) == key_lt(a@.subrange(i as int, a@.len() as int), b@.subrange(i as int, b@.len() as int)),
        decreases a.len() - i,
    {
        proof {
            let sa = a@.subrange(i as int, a@.len() as int);
            let sb = b@.subrange(i as int, b@.len() as int);
            assert(sa.drop_first() =~= a@.subrange(i + 1, a@.len() as int));
            assert(sb.drop_first() =~= b@.subrange(i + 1, b@.len() as int));
        }
        i += 1;
    }
    proof {
        let sa = a@.subrange(i as int, a@.len() as int);
        let sb = b@.subrange(i as int, b@.len() as int);
        if i < a.len() && i < b.len() {
            assert(sa[0] == a@[i as int]);
            assert(sb[0] == b@[i as int]);
        }
    }
    if i == a.len() {
        i < b.len()
    } else if i == b.len() {
        false
    } else {
        (a[i] as u32) < (b[i] as u32)
    }
}

/// Sets `k` to `v` in an object's entries (see [`obj_insert`]).
pub fn obj_insert_exec(m: &mut Vec<(String, JsonValue)>, k: String, v: JsonValue)
    ensures
        json_entries_view(final(m)@) == obj_insert(json_entries_view(old(m)@), k@, v@),
{
    let ghost mv = json_entries_view(m@);
    proof {
        lemma_json_entries_view_index(m@);
    }
    let kc = chars_of(k.as_str());
    let mut i: usize = 0;
    while i < m.len()
        invariant
            i <= m@.len(),
            mv == json_entries_view(m@),
            mv.len() == m@.len(),
            kc@ == k@,
            forall|j: int| 0 <= j < m@.len() ==> #[trigger] mv[j] == (m@[j].0@, m@[j].1@),
            forall|j: int| 0 <= j < i ==> (#[trigger] mv[j]).0 != k@ && !key_lt(k@, mv[j].0),
        ensures
            i <= m@.len(),
            forall|j: int| 0 <= j < i ==> (#[trigger] mv[j]).0 != k@ && !key_lt(k@, mv[j].0),
            i < m@.len() ==> (mv[i as int].0 == k@ || key_lt(k@, mv[i as int].0)),
        decreases m.len() - i,
    {
        if m[i].0 == k {
            break;
        }
        let mc = chars_of(m[i].0.as_str());
        if key_lt_exec(kc.as_slice(), mc.as_slice()) {
            break;
        }
        i += 1;
    }
    proof {
        lemma_obj_insert_at(mv, k@, v@, i as int);
    }
    let ghost kv = k@;
    let ghost vv = v@;
    let replace = i < m.len() && m[i].0 == k;
    if replace {
        m.remove(i);
    }
    m.insert(i, (k, v));
    proof {
        lemma_json_entries_view_index(m@);
        let target = obj_insert(mv, kv, vv);
        assert(json_entries_view(m@) =~= target);
    }
}


pub fn parse_js_any(s: &[char], p: usize) -> (r: Parsed<JsonValue>)
    requires
        p <= s@.len(),
    ensures
        r matches Parsed::Done(_, q) ==> q <= s@.len(),
        agrees3(r, spec_js_any(s@, p as int)),
    decreases s@.len() - p, 6int,
{
    match parse_js_object(s, p) {
        Parsed::NoMatch => match parse_js_array(s, p) {
            Parsed::NoMatch => parse_js_value(s, p),
            r => r,
        },
        r => r,
    }
}

pub fn parse_js_array(s: &[char], p: usize) -> (r: Parsed<JsonValue>)
    requires
        p <= s@.len(),
    ensures
        r matches Parsed::Done(_, q) ==> q <= s@.len(),
        agrees3(r, spec_js_array(s@, p as int)),
    decreases s@.len() - p, 4int,
{
    let len = s.len();
    if !has_char_exec(s, p, '[') {
        return Parsed::NoMatch;
    }
    let q = ws_end_exec(s, p + 1);
    match parse_js_list(s, q) {
        Parsed::Done(items, e) => {
            let e2 = ws_end_exec(s, e);
            if has_char_exec(s, e2, ']') {
                Parsed::Done(JsonValue::Array(items), e2 + 1)
            } else {
                Parsed::NoMatch
            }
        },
        Parsed::NoMatch => Parsed::NoMatch,
        Parsed::Stop => Parsed::Stop,
    }
}

pub fn parse_js_list(s: &[char], q: usize) -> (r: Parsed<Vec<JsonValue>>)
    requires
        q <= s@.len(),
    ensures
        match spec_js_list(s@, q as int) {
            Res::Done(vs, e) => (r matches Parsed::Done(out, p) && json_values_view(out@) == vs && p as int == e
                && p <= s@.len()),
            Res::NoMatch => r is NoMatch,
            Res::Abort => r is Stop,
        },
    decreases s@.len() - q, 7int,
{
    let len = s.len();
    let mut out: Vec<JsonValue> = Vec::new();
    let (v, e) = match parse_js_any(s, q) {
        Parsed::NoMatch => {
            return Parsed::Done(out, q);
        },
        Parsed::Stop => {
            return Parsed::Stop;
        },
        Parsed::Done(v, e) => (v, e),
    };
    if !(q < e && e <= len) {
        return Parsed::NoMatch;
    }
    let ghost v0 = v@;
    out.push(v);
    let mut cur = e;
    proof {
        crate::types::lemma_json_values_view_push(Seq::empty(), out@[0]);
        assert(Seq::<JsonValue>::empty().push(out@[0]) =~= out@);
        assert(json_values_view(out@) =~= seq![v0]);
    }
    loop
        invariant
            q < cur <= s@.len(),
            len == s@.len(),
            spec_js_list(s@, q as int) == crate::parser::prepend(json_values_view(out@), spec_js_list_rest(s@, cur as int)),
        decreases s@.len() - cur,
    {
        proof {
            lemma_ws_end(s@, cur as int);
        }
        let q1 = ws_end_exec(s, cur);
        if !has_char_exec(s, q1, ',') {
            proof {
                assert(json_values_view(out@) + Seq::<JsonV>::empty() =~= json_values_view(out@));
            }
            return Parsed::Done(out, cur);
        }
        let qn = ws_end_exec(s, q1 + 1);
        match parse_js_any(s, qn) {
            Parsed::NoMatch => {
                proof {
                    assert(json_values_view(out@) + Seq::<JsonV>::empty() =~= json_values_view(out@));
                }
                return Parsed::Done(out, cur);
            },
            Parsed::Stop => {
                return Parsed::Stop;
            },
            Parsed::Done(v, e) => {
                if !(qn < e && e <= len) {
                    return Parsed::NoMatch;
                }
                let ghost old_out = out@;
                out.push(v);
                proof {
                    crate::types::lemma_json_values_view_push(old_out, v);
                    assert(json_values_view(out@) =~= json_values_view(old_out) + seq![v@]);
                    match spec_js_list_rest(s@, e as int) {
                        Res::Done(rest, e3) => {
                            assert(json_values_view(out@) + rest =~= json_values_view(old_out) + (seq![v@]
                                + rest));
                        },
                        _ => {},
                    }
                }
                cur = e;
            },
        }
    }
}

pub fn parse_js_pair(s: &[char], q: usize) -> (r: Parsed<(String, JsonValue)>)
    requires
        q <= s@.len(),
    ensures
        r matches Parsed::Done(_, e) ==> e <= s@.len(),
        agrees3(r, spec_js_pair(s@, q as int)),
    decreases s@.len() - q, 3int,
{
    let len = s.len();
    let k0 = ws_end_exec(s, q);
    let (k, e1) = match parse_string_or_ident(s, k0) {
        Some(x) => x,
        None => {
            return Parsed::NoMatch;
        },
    };
    if !(k0 < e1 && e1 <= len) {
        return Parsed::NoMatch;
    }
    let c = ws_end_exec(s, e1);
    if !has_char_exec(s, c, ':') {
        return Parsed::NoMatch;
    }
    let v0 = ws_end_exec(s, c + 1);
    match parse_js_any(s, v0) {
        Parsed::Done(v, e3) => Parsed::Done((k, v), ws_end_exec(s, e3)),
        Parsed::NoMatch => Parsed::NoMatch,
        Parsed::Stop => Parsed::Stop,
    }
}

/// Pairs separated by `,`, gathered into an object as they are read.
pub fn parse_js_pairs(s: &[char], q: usize) -> (r: Parsed<Vec<(String, JsonValue)>>)
    requires
        q <= s@.len(),
    ensures
        match spec_js_pairs(s@, q as int) {
            Res::Done(ps, e) => (r matches Parsed::Done(obj, p) && json_entries_view(obj@) == obj_from(ps)
                && p as int == e && p <= s@.len()),
            Res::NoMatch => r is NoMatch,
            Res::Abort => r is Stop,
        },
    decreases s@.len() - q, 9int,
{
    let len = s.len();
    let mut obj: Vec<(String, JsonValue)> = Vec::new();
    proof {
        assert(json_entries_view(obj@) =~= Seq::<(Seq<char>, JsonV)>::empty());
    }
    let (pr, e) = match parse_js_pair(s, q) {
        Parsed::NoMatch => {
            return Parsed::Done(obj, q);
        },
        Parsed::Stop => {
            return Parsed::Stop;
        },
        Parsed::Done(pr, e) => (pr, e),
    };
    if !(q < e && e <= len) {
        return Parsed::NoMatch;
    }
    let ghost first = pr@;
    let ghost done: Seq<(Seq<char>, JsonV)> = seq![first];
    let (k, v) = pr;
    obj_insert_exec(&mut obj, k, v);
    proof {
        assert(done.drop_last() =~= Seq::<(Seq<char>, JsonV)>::empty());
        assert(obj_from(Seq::<(Seq<char>, JsonV)>::empty()) == Seq::<(Seq<char>, JsonV)>::empty());
        assert(obj_from(done) == obj_insert(Seq::<(Seq<char>, JsonV)>::empty(), first.0, first.1));
    }
    let mut cur = e;
    loop
        invariant
            q < cur <= s@.len(),
            len == s@.len(),
            json_entries_view(obj@) == obj_from(done),
            spec_js_pairs(s@, q as int) == crate::parser::prepend(done, spec_js_pairs_rest(s@, cur as int)),
        decreases s@.len() - cur,
    {
        proof {
            lemma_ws_end(s@, cur as int);
        }
        let q1 = ws_end_exec(s, cur);
        if !has_char_exec(s, q1, ',') {
            proof {
                assert(done + Seq::<(Seq<char>, JsonV)>::empty() =~= done);
            }
            return Parsed::Done(obj, cur);
        }
        let qn = ws_end_exec(s, q1 + 1);
        match parse_js_pair(s, qn) {
            Parsed::NoMatch => {
                proof {
                    assert(done + Seq::<(Seq<char>, JsonV)>::empty() =~= done);
                }
                return Parsed::Done(obj, cur);
            },
            Parsed::Stop => {
                return Parsed::Stop;
            },
            Parsed::Done(pr, e) => {
                if !(qn < e && e <= len) {
                    return Parsed::NoMatch;
                }
                let ghost old_done = done;
                let ghost pv = pr@;
                let (k, v) = pr;
                obj_insert_exec(&mut obj, k, v);
                proof {
                    done = old_done.push(pv);
                    assert(done.drop_last() =~= old_done);
                    assert(done =~= old_done + seq![pv]);
                    match spec_js_pairs_rest(s@, e as int) {
                        Res::Done(rest, e3) => {
                            assert(done + rest =~= old_done + (seq![pv] + rest));
                        },
                        _ => {},
                    }
                }
                cur = e;
            },
        }
    }
}

pub fn parse_js_object(s: &[char], p: usize) -> (r: Parsed<JsonValue>)
    requires
        p <= s@.len(),
    ensures
        r matches Parsed::Done(_, q) ==> q <= s@.len(),
        agrees3(r, spec_js_object(s@, p as int)),
    decreases s@.len() - p, 5int,
{
    let len = s.len();
    if !has_char_exec(s, p, '{') {
        return Parsed::NoMatch;
    }
    let q = ws_end_exec(s, p + 1);
    match parse_js_pairs(s, q) {
        Parsed::Done(obj, e) => {
            let e2 = ws_end_exec(s, e);
            if has_char_exec(s, e2, '}') {
                Parsed::Done(JsonValue::Object(obj), e2 + 1)
            } else {
                Parsed::NoMatch
            }
        },
        Parsed::NoMatch => Parsed::NoMatch,
        Parsed::Stop => Parsed::Stop,
    }
}


// ------------------------------------------------------------- JSON text

/// Appends a value's compact JSON text (see [`crate::json_doc::json_text_of`]).
pub fn push_json_text(out: &mut String, v: &JsonValue)
    ensures
        final(out)@ == old(out)@ + crate::json_doc::json_text_of(v@),
{
    let t = crate::json_doc::json_to_text(v);
    out.append(t.as_str());
}

// ------------------------------------------------------------ query forms

/// The number of bytes of a character in UTF-8.
pub open spec fn utf8_len(c: char) -> int {
    let u = c as u32;
    if u < 0x80 {
        1
    } else if u < 0x800 {
        2
    } else if u < 0x10000 {
        3
    } else {
        4
    }
}

/// The byte offset in UTF-8 of the character at index `k`.
pub open spec fn byte_offset(t: Seq<char>, k: int) -> int
    decreases k,
{
    if k <= 0 {
        0
    } else {
        byte_offset(t, k - 1) + utf8_len(t[k - 1])
    }
}

/// The index of the character that starts at byte `b`, searching from
/// character `k` on; `None` when byte `b` is inside a character or past the end.
pub open spec fn char_at_byte_from(t: Seq<char>, k: int, b: int) -> Option<int>
    decreases t.len() - k,
{
    if k < 0 || k > t.len() {
        None
    } else if byte_offset(t, k) == b {
        Some(k)
    } else if byte_offset(t, k) > b || k == t.len() {
        None
    } else {
        char_at_byte_from(t, k + 1, b)
    }
}

/// The index of the character that starts at byte `b`, if one does.
pub open spec fn char_at_byte(t: Seq<char>, b: int) -> Option<int> {
    char_at_byte_from(t, 0, b)
}

/// The index of the first `,` outside quotes and outside brackets,
/// parentheses and braces, scanning from `i` with the given nesting depths.
pub open spec fn outer_comma_from(s: Seq<char>, i: int, br: int, pa: int, bc: int, q: bool) -> Option<int>
    decreases s.len() - i,
{
    if i < 0 || i >= s.len() {
        None
    } else {
        let c = s[i];
        if c == '"' {
            outer_comma_from(s, i + 1, br, pa, bc, !q)
        } else if q {
            outer_comma_from(s, i + 1, br, pa, bc, q)
        } else if c == '[' {
            outer_comma_from(s, i + 1, br + 1, pa, bc, q)
        } else if c == ']' {
            outer_comma_from(s, i + 1, br - 1, pa, bc, q)
        } else if c == '(' {
            outer_comma_from(s, i + 1, br, pa + 1, bc, q)
        } else if c == ')' {
            outer_comma_from(s, i + 1, br, pa - 1, bc, q)
        } else if c == '{' {
            outer_comma_from(s, i + 1, br, pa, bc + 1, q)
        } else if c == '}' {
            outer_comma_from(s, i + 1, br, pa, bc - 1, q)
        } else if c == ',' && br == 0 && pa == 0 && bc == 0 {
            Some(i)
        } else {
            outer_comma_from(s, i + 1, br, pa, bc, q)
        }
    }
}

/// The index of the first top-level `,`.
pub open spec fn outer_comma(s: Seq<char>) -> Option<int> {
    outer_comma_from(s, 0, 0, 0, 0, false)
}

/// Whether a write action (`.update`, `.delete`, `.empty`, `.insert`,
/// `.upsert`) starts at `i`.
pub open spec fn is_action_at(t: Seq<char>, i: int) -> bool {
    has_lit(t, i, ".update"@) || has_lit(t, i, ".delete"@) || has_lit(t, i, ".empty"@) || has_lit(
        t,
        i,
        ".insert"@,
    ) || has_lit(t, i, ".upsert"@)
}

/// The index of the last top-level `.` that starts an action, scanning
/// from `i`; `last` is the one found before `i`.
pub open spec fn action_dot_from(
    t: Seq<char>,
    i: int,
    br: int,
    pa: int,
    bc: int,
    q: bool,
    last: Option<int>,
) -> Option<int>
    decreases t.len() - i,
{
    if i < 0 || i >= t.len() {
        last
    } else {
        let c = t[i];
        if c == '"' {
            action_dot_from(t, i + 1, br, pa, bc, !q, last)
        } else if q {
            action_dot_from(t, i + 1, br, pa, bc, q, last)
        } else if c == '[' {
            action_dot_from(t, i + 1, br + 1, pa, bc, q, last)
        } else if c == ']' {
            action_dot_from(t, i + 1, br - 1, pa, bc, q, last)
        } else if c == '(' {
            action_dot_from(t, i + 1, br, pa + 1, bc, q, last)
        } else if c == ')' {
            action_dot_from(t, i + 1, br, pa - 1, bc, q, last)
        } else if c == '{' {
            action_dot_from(t, i + 1, br, pa, bc + 1, q, last)
        } else if c == '}' {
            action_dot_from(t, i + 1, br, pa, bc - 1, q, last)
        } else if c == '.' && br == 0 && pa == 0 && bc == 0 && is_action_at(t, i) {
            action_dot_from(t, i + 1, br, pa, bc, q, Some(i))
        } else {
            action_dot_from(t, i + 1, br, pa, bc, q, last)
        }
    }
}

/// The text without leading `"` characters.
pub open spec fn trim_quotes_start(s: Seq<char>) -> Seq<char>
    decreases s.len(),
{
    if s.len() > 0 && s[0] == '"' {
        trim_quotes_start(s.drop_first())
    } else {
        s
    }
}

/// The text without trailing `"` characters.
pub open spec fn trim_quotes_end(s: Seq<char>) -> Seq<char>
    decreases s.len(),
{
    if s.len() > 0 && s.last() == '"' {
        trim_quotes_end(s.drop_last())
    } else {
        s
    }
}

/// The text without `"` at either end (std `str::trim_matches('"')`).
pub open spec fn trim_quotes(s: Seq<char>) -> Seq<char> {
    trim_quotes_end(trim_quotes_start(s))
}

/// `w`, `w()` or `w(` whitespace `)`.
pub open spec fn is_bare_command(t: Seq<char>, w: Seq<char>) -> bool {
    t == w || t == w + "()"@ || (t.len() >= w.len() + 2 && t.subrange(0, w.len() + 1int) == w + "("@
        && t.last() == ')' && trim(t.subrange(w.len() + 1int, t.len() - 1)).len() == 0)
}

/// `drop(` name `)`: the name and the position after `)`.
pub open spec fn drop_form(t: Seq<char>) -> Option<(Seq<char>, int)> {
    if has_lit(t, 0, "drop"@) && has_char(t, 4, '(') {
        match spec_string_or_ident(t, ws_end(t, 5)) {
            Res::Done(n, e) => if has_char(t, ws_end(t, e), ')') {
                Some((n, ws_end(t, e) + 1))
            } else {
                None
            },
            _ => None,
        }
    } else {
        None
    }
}

/// The key text of a batch entry: a string itself, another value its JSON text.
pub open spec fn key_text(v: JsonV) -> Seq<char> {
    match v {
        JsonV::Str(t) => t,
        other => crate::json_doc::json_text_of(other),
    }
}

/// The entries of a batch: each two-element array as (key, value); other
/// items are skipped.
pub open spec fn batch_of(arr: Seq<JsonV>) -> Seq<(Seq<char>, JsonV)>
    decreases arr.len(),
{
    if arr.len() == 0 {
        Seq::empty()
    } else {
        let prev = batch_of(arr.drop_last());
        match arr.last() {
            JsonV::Array(pair) => if pair.len() == 2 {
                prev.push((key_text(pair[0]), pair[1]))
            } else {
                prev
            },
            _ => prev,
        }
    }
}

/// The outcome of reading a query.
pub enum QRes {
    Parsed(crate::types::QueryV),
    Refused(Seq<char>),
    Stops,
}

/// A pipeline read as a query of its own.
pub open spec fn pipeline_query(t: Seq<char>) -> QRes {
    match crate::parser::spec_pipeline(t) {
        crate::parser::PipeV::Stages(v) => QRes::Parsed(crate::types::QueryV::Pipeline(v)),
        crate::parser::PipeV::Refused(m) => QRes::Refused(m),
        crate::parser::PipeV::Stops => QRes::Stops,
    }
}

/// Whether the argument text is in parentheses.
pub open spec fn paren_arg(arg: Seq<char>) -> bool {
    arg.len() > 0 && arg[0] == '(' && arg.last() == ')'
}

/// The trimmed text inside the parentheses.
pub open spec fn paren_inner(arg: Seq<char>) -> Seq<char> {
    trim(arg.subrange(1, arg.len() - 1))
}

/// The stream of a pipeline that is one `from(..)` stage.
pub open spec fn single_from(pl: Seq<crate::types::StageV>) -> Option<Seq<char>> {
    if pl.len() == 1 && pl[0] is From {
        Some(pl[0]->From_stream_name)
    } else {
        None
    }
}

pub open spec fn insert_err() -> Seq<char> {
    "Insert action must be applied directly to from(stream)"@
}

pub open spec fn upsert_err() -> Seq<char> {
    "Upsert action must be applied directly to from(stream)"@
}

/// `.insert(..)` or `.upsert(..)`: a batch `[[key, value], ...]`, or
/// `key, value`.
pub open spec fn write_action(a: Seq<char>, from1: Option<Seq<char>>, insert: bool) -> QRes {
    let err = if insert {
        insert_err()
    } else {
        upsert_err()
    };
    match from1 {
        None => QRes::Refused(err),
        Some(name) => {
            let arg = trim(a.subrange(7, a.len() as int));
            if !paren_arg(arg) {
                QRes::Refused(err)
            } else {
                let inner = paren_inner(arg);
                if inner.len() > 0 && inner[0] == '[' {
                    match spec_js_array(inner, 0) {
                        Res::Abort => QRes::Stops,
                        Res::Done(JsonV::Array(arr), _) => if insert {
                            QRes::Parsed(
                                crate::types::QueryV::InsertBatch { stream_name: name, batch: batch_of(arr) },
                            )
                        } else {
                            QRes::Parsed(
                                crate::types::QueryV::UpsertBatch { stream_name: name, batch: batch_of(arr) },
                            )
                        },
                        _ => QRes::Refused(err),
                    }
                } else {
                    match outer_comma(inner) {
                        None => QRes::Refused(err),
                        Some(j) => {
                            let key = trim_quotes(trim(inner.subrange(0, j)));
                            let val = trim(inner.subrange(j + 1, inner.len() as int));
                            match spec_js_any(val, 0) {
                                Res::Abort => QRes::Stops,
                                Res::NoMatch => QRes::Refused(err),
                                Res::Done(v, _) => if insert {
                                    QRes::Parsed(
                                        crate::types::QueryV::Insert { stream_name: name, key: key, value: v },
                                    )
                                } else {
                                    QRes::Parsed(
                                        crate::types::QueryV::Upsert { stream_name: name, key: key, value: v },
                                    )
                                },
                            }
                        },
                    }
                }
            }
        },
    }
}

/// `.update(key, value)` on one `from(..)` stage, else `.update(value)` on
/// a pipeline; when neither reads, the whole text is read as a pipeline.
pub open spec fn update_action(
    t: Seq<char>,
    pl: Seq<crate::types::StageV>,
    a: Seq<char>,
    from1: Option<Seq<char>>,
) -> QRes {
    let arg = trim(a.subrange(7, a.len() as int));
    if !paren_arg(arg) {
        pipeline_query(t)
    } else {
        let inner = paren_inner(arg);
        let first: Option<QRes> = match from1 {
            Some(name) => match outer_comma(inner) {
                Some(j) => {
                    let key = trim_quotes(trim(inner.subrange(0, j)));
                    let val = trim(inner.subrange(j + 1, inner.len() as int));
                    match spec_js_any(val, 0) {
                        Res::Done(v, _) => Some(
                            QRes::Parsed(crate::types::QueryV::Update { stream_name: name, key: key, value: v }),
                        ),
                        Res::Abort => Some(QRes::Stops),
                        Res::NoMatch => None,
                    }
                },
                None => None,
            },
            None => None,
        };
        match first {
            Some(r) => r,
            None => match spec_js_any(inner, 0) {
                Res::Done(v, _) => QRes::Parsed(
                    crate::types::QueryV::PipelineUpdate { pipeline: pl, update_value: v },
                ),
                Res::Abort => QRes::Stops,
                Res::NoMatch => pipeline_query(t),
            },
        }
    }
}

/// The action after a pipeline `pl`; `a` is the action text, from its `.` on.
pub open spec fn action_query(t: Seq<char>, pl: Seq<crate::types::StageV>, a: Seq<char>) -> QRes {
    let from1 = single_from(pl);
    if has_lit(a, 0, ".delete"@) {
        let arg = trim(a.subrange(7, a.len() as int));
        if paren_arg(arg) && paren_inner(arg).len() > 0 && from1 is Some {
            QRes::Parsed(
                crate::types::QueryV::DeleteKey {
                    stream_name: from1->0,
                    key: trim_quotes(paren_inner(arg)),
                },
            )
        } else {
            QRes::Parsed(crate::types::QueryV::PipelineDelete { pipeline: pl })
        }
    } else if has_lit(a, 0, ".empty"@) {
        match from1 {
            Some(name) => QRes::Parsed(crate::types::QueryV::Empty { stream_name: name }),
            None => QRes::Refused("Empty action must be applied directly to from(stream)"@),
        }
    } else if has_lit(a, 0, ".insert"@) {
        write_action(a, from1, true)
    } else if has_lit(a, 0, ".upsert"@) {
        write_action(a, from1, false)
    } else if has_lit(a, 0, ".update"@) {
        update_action(t, pl, a, from1)
    } else {
        pipeline_query(t)
    }
}

/// A whole query. The action's `.` is found as a character index and then
/// used as a byte offset into the text; when that byte is inside a
/// character, the engine stops.
pub open spec fn spec_query(input: Seq<char>) -> QRes {
    let t = trim(input);
    if t.len() == 0 {
        QRes::Refused("Empty query"@)
    } else if is_bare_command(t, "streams"@) {
        QRes::Parsed(crate::types::QueryV::ListStreams)
    } else if is_bare_command(t, "status"@) {
        QRes::Parsed(crate::types::QueryV::Status)
    } else if drop_form(t) is Some {
        let (n, e) = drop_form(t)->0;
        let rem = trim(t.subrange(e, t.len() as int));
        if rem.len() == 0 {
            QRes::Parsed(crate::types::QueryV::Drop { stream_name: n })
        } else {
            QRes::Refused("Unexpected trailing characters after drop: '"@ + rem + "'"@)
        }
    } else {
        match action_dot_from(t, 0, 0, 0, 0, false, None) {
            None => pipeline_query(t),
            Some(idx) => match char_at_byte(t, idx) {
                None => QRes::Stops,
                Some(k) => match crate::parser::spec_pipeline(trim(t.subrange(0, k))) {
                    crate::parser::PipeV::Stops => QRes::Stops,
                    crate::parser::PipeV::Refused(m) => QRes::Refused(m),
                    crate::parser::PipeV::Stages(pl) => action_query(t, pl, trim(t.subrange(k, t.len() as int))),
                },
            },
        }
    }
}


/// The characters without leading and trailing whitespace.
pub fn trim_chars(v: &[char]) -> (r: Vec<char>)
    ensures
        r@ == trim(v@),
{
    let st = string_of(v);
    chars_of(crate::text::str_trim(st.as_str()))
}

/// The index of the character that starts at byte `b` (see [`char_at_byte`]).
pub fn char_at_byte_exec(t: &[char], b: usize) -> (r: Option<usize>)
    ensures
        match char_at_byte(t@, b as int) {
            Some(k) => r == Some(k as usize),
            None => r is None,
        },
{
    let mut k: usize = 0;
    let mut off: u128 = 0;
    while k < t.len()
        invariant
            k <= t@.len(),
            off == byte_offset(t@, k as int),
            off <= 4 * k,
            char_at_byte(t@, b as int) == char_at_byte_from(t@, k as int, b as int),
        decreases t.len() - k,
    {
        if off == b as u128 {
            return Some(k);
        }
        if off > b as u128 {
            return None;
        }
        let c = t[k] as u32;
        let l: u128 = if c < 0x80 {
            1
        } else if c < 0x800 {
            2
        } else if c < 0x10000 {
            3
        } else {
            4
        };
        k += 1;
        off = off + l;
    }
    if off == b as u128 {
        Some(k)
    } else {
        None
    }
}

/// The index of the first top-level `,` (see [`outer_comma`]).
pub fn outer_comma_exec(s: &[char]) -> (r: Option<usize>)
    ensures
        match outer_comma(s@) {
            Some(j) => r == Some(j as usize),
            None => r is None,
        },
{
    let mut br: i128 = 0;
    let mut pa: i128 = 0;
    let mut bc: i128 = 0;
    let mut q = false;
    let mut i: usize = 0;
    while i < s.len()
        invariant
            i <= s@.len(),
            -(i as int) <= br <= i,
            -(i as int) <= pa <= i,
            -(i as int) <= bc <= i,
            outer_comma(s@) == outer_comma_from(s@, i as int, br as int, pa as int, bc as int, q),
        decreases s.len() - i,
    {
        let c = s[i];
        if c == '"' {
            q = !q;
        } else if !q {
            if c == '[' {
                br += 1;
            } else if c == ']' {
                br -= 1;
            } else if c == '(' {
                pa += 1;
            } else if c == ')' {
                pa -= 1;
            } else if c == '{' {
                bc += 1;
            } else if c == '}' {
                bc -= 1;
            } else if c == ',' && br == 0 && pa == 0 && bc == 0 {
                return Some(i);
            }
        }
        i += 1;
    }
    None
}

proof fn lemma_outer_comma_bound(s: Seq<char>, i: int, br: int, pa: int, bc: int, q: bool)
    requires
        0 <= i,
    ensures
        outer_comma_from(s, i, br, pa, bc, q) matches Some(j) ==> i <= j < s.len(),
    decreases s.len() - i,
{
    if i < s.len() {
        let c = s[i];
        lemma_outer_comma_bound(s, i + 1, br, pa, bc, !q);
        lemma_outer_comma_bound(s, i + 1, br, pa, bc, q);
        lemma_outer_comma_bound(s, i + 1, br + 1, pa, bc, q);
        lemma_outer_comma_bound(s, i + 1, br - 1, pa, bc, q);
        lemma_outer_comma_bound(s, i + 1, br, pa + 1, bc, q);
        lemma_outer_comma_bound(s, i + 1, br, pa - 1, bc, q);
        lemma_outer_comma_bound(s, i + 1, br, pa, bc + 1, q);
        lemma_outer_comma_bound(s, i + 1, br, pa, bc - 1, q);
    }
}

/// The byte offset of the first `,` that stands outside quotes and outside
/// brackets, parentheses and braces.
pub fn find_outer_comma(input: &str) -> (r: Option<usize>)
    ensures
        match outer_comma(input@) {
            Some(j) => r == Some(byte_offset(input@, j) as usize),
            None => r is None,
        },
{
    let v = chars_of(input);
    proof {
        lemma_outer_comma_bound(v@, 0, 0, 0, 0, false);
    }
    match outer_comma_exec(v.as_slice()) {
        Some(j) => {
            let mut k: usize = 0;
            let mut off: u128 = 0;
            while k < j
                invariant
                    k <= j < v@.len(),
                    off == byte_offset(v@, k as int),
                    off <= 4 * k,
                decreases j - k,
            {
                let c = v[k] as u32;
                let l: u128 = if c < 0x80 {
                    1
                } else if c < 0x800 {
                    2
                } else if c < 0x10000 {
                    3
                } else {
                    4
                };
                k += 1;
                off = off + l;
            }
            Some(off as usize)
        },
        None => None,
    }
}

/// The index of the last top-level action `.` (see [`action_dot_from`]).
pub fn action_dot_exec(t: &[char]) -> (r: Option<usize>)
    ensures
        match action_dot_from(t@, 0, 0, 0, 0, false, None) {
            Some(j) => r == Some(j as usize),
            None => r is None,
        },
{
    proof {
        reveal_strlit(".update");
        reveal_strlit(".delete");
        reveal_strlit(".empty");
        reveal_strlit(".insert");
        reveal_strlit(".upsert");
    }
    let mut br: i128 = 0;
    let mut pa: i128 = 0;
    let mut bc: i128 = 0;
    let mut q = false;
    let mut last: Option<usize> = None;
    let mut i: usize = 0;
    while i < t.len()
        invariant
            i <= t@.len(),
            -(i as int) <= br <= i,
            -(i as int) <= pa <= i,
            -(i as int) <= bc <= i,
            last matches Some(x) ==> x < i,
            action_dot_from(t@, 0, 0, 0, 0, false, None) == action_dot_from(
                t@,
                i as int,
                br as int,
                pa as int,
                bc as int,
                q,
                match last {
                    Some(x) => Some(x as int),
                    None => None,
                },
            ),
        decreases t.len() - i,
    {
        let c = t[i];
        if c == '"' {
            q = !q;
        } else if !q {
            if c == '[' {
                br += 1;
            } else if c == ']' {
                br -= 1;
            } else if c == '(' {
                pa += 1;
            } else if c == ')' {
                pa -= 1;
            } else if c == '{' {
                bc += 1;
            } else if c == '}' {
                bc -= 1;
            } else if c == '.' && br == 0 && pa == 0 && bc == 0 {
                if has_lit_exec(t, i, ".update") || has_lit_exec(t, i, ".delete") || has_lit_exec(t, i, ".empty")
                    || has_lit_exec(t, i, ".insert") || has_lit_exec(t, i, ".upsert") {
                    last = Some(i);
                }
            }
        }
        i += 1;
    }
    last
}

/// The text without `"` at either end (see [`trim_quotes`]).
pub fn trim_quotes_exec(v: &[char]) -> (r: Vec<char>)
    ensures
        r@ == trim_quotes(v@),
{
    let len = v.len();
    let mut a: usize = 0;
    assert(v@.subrange(0, len as int) =~= v@);
    while a < len && v[a] == '"'
        invariant
            a <= len == v@.len(),
            trim_quotes_start(v@) == trim_quotes_start(v@.subrange(a as int, len as int)),
        decreases len - a,
    {
        assert(v@.subrange(a as int, len as int).drop_first() =~= v@.subrange(a + 1, len as int));
        a += 1;
    }
    let mut b: usize = len;
    let ghost st = v@.subrange(a as int, len as int);
    assert(st.subrange(0, st.len() as int) =~= st);
    while b > a && v[b - 1] == '"'
        invariant
            a <= b <= len == v@.len(),
            st == v@.subrange(a as int, len as int),
            trim_quotes_end(st) == trim_quotes_end(v@.subrange(a as int, b as int)),
        decreases b - a,
    {
        assert(v@.subrange(a as int, b as int).drop_last() =~= v@.subrange(a as int, b - 1));
        b -= 1;
    }
    let mut out: Vec<char> = Vec::new();
    let mut i = a;
    while i < b
        invariant
            a <= i <= b <= len == v@.len(),
            out@ == v@.subrange(a as int, i as int),
        decreases b - i,
    {
        out.push(v[i]);
        i += 1;
        assert(out@ =~= v@.subrange(a as int, i as int));
    }
    proof {
        let sa = v@.subrange(a as int, len as int);
        assert(trim_quotes_start(sa) == sa);
        let sb = v@.subrange(a as int, b as int);
        assert(trim_quotes_end(sb) == sb);
    }
    out
}


/// Whether the text is `w`, `w()` or `w(` whitespace `)`.
pub fn is_bare_command_exec(t: &[char], w: &str) -> (r: bool)
    ensures
        r == is_bare_command(t@, w@),
{
    proof {
        reveal_strlit("()");
        reveal_strlit("(");
    }
    let wl = chars_of(w).len();
    if crate::text::chars_eq_str(t, w) {
        return true;
    }
    let mut w2 = owned(w);
    w2.append("()");
    if crate::text::chars_eq_str(t, w2.as_str()) {
        return true;
    }
    if t.len() >= 2 && t.len() - 2 >= wl {
        let mut w3 = owned(w);
        w3.append("(");
        if crate::text::chars_eq_str(slice_sub(t, 0, wl + 1), w3.as_str()) && t[t.len() - 1] == ')' {
            let inner = trim_chars(slice_sub(t, wl + 1, t.len() - 1));
            return inner.len() == 0;
        }
    }
    false
}

/// `drop(` name `)` (see [`drop_form`]).
pub fn drop_form_exec(t: &[char]) -> (r: Option<(String, usize)>)
    ensures
        match drop_form(t@) {
            Some((n, e)) => (r matches Some((x, p)) && x@ == n && p as int == e && p <= t@.len()),
            None => r is None,
        },
{
    let len = t.len();
    proof {
        reveal_strlit("drop");
    }
    if has_lit_exec(t, 0, "drop") && has_char_exec(t, 4, '(') {
        match parse_string_or_ident(t, ws_end_exec(t, 5)) {
            Some((n, e)) => {
                let c = ws_end_exec(t, e);
                if has_char_exec(t, c, ')') {
                    Some((n, c + 1))
                } else {
                    None
                }
            },
            None => None,
        }
    } else {
        None
    }
}

/// The key text of a batch entry (see [`key_text`]).
pub fn key_text_exec(v: JsonValue) -> (r: String)
    ensures
        r@ == key_text(v@),
{
    match v {
        JsonValue::String(t) => t,
        other => {
            let mut o = String::new();
            push_json_text(&mut o, &other);
            o
        },
    }
}

/// The entries of a batch (see [`batch_of`]).
pub fn batch_of_exec(arr: Vec<JsonValue>) -> (r: Vec<(String, JsonValue)>)
    ensures
        crate::types::batch_view(r@) == batch_of(json_values_view(arr@)),
{
    let ghost a0 = arr@;
    let ghost orig = json_values_view(a0);
    proof {
        lemma_json_values_view_index(a0);
        assert(orig.take(0) =~= Seq::<JsonV>::empty());
        assert(a0.subrange(0, a0.len() as int) =~= a0);
    }
    let n = arr.len();
    let mut rest = arr;
    let mut out: Vec<(String, JsonValue)> = Vec::new();
    let mut i: usize = 0;
    proof {
        assert(crate::types::batch_view(out@) =~= Seq::<(Seq<char>, JsonV)>::empty());
    }
    while i < n
        invariant
            i <= n == a0.len(),
            orig == json_values_view(a0),
            orig.len() == a0.len(),
            forall|k: int| 0 <= k < a0.len() ==> #[trigger] orig[k] == a0[k]@,
            rest@ == a0.subrange(i as int, n as int),
            crate::types::batch_view(out@) == batch_of(orig.take(i as int)),
        decreases n - i,
    {
        let item = rest.remove(0);
        proof {
            assert(item == a0[i as int]);
            assert(orig.take(i + 1).drop_last() =~= orig.take(i as int));
            assert(orig.take(i + 1).last() == item@);
            assert(rest@ =~= a0.subrange(i + 1, n as int));
        }
        let ghost before = out@;
        match item {
            JsonValue::Array(mut pair) => {
                proof {
                    lemma_json_values_view_index(pair@);
                }
                if pair.len() == 2 {
                    let ghost p0 = pair@[0];
                    let ghost p1 = pair@[1];
                    let second = pair.pop().unwrap();
                    let first = pair.pop().unwrap();
                    let k = key_text_exec(first);
                    out.push((k, second));
                    proof {
                        assert(crate::types::batch_view(out@) =~= crate::types::batch_view(before).push(
                            (key_text(p0@), p1@),
                        ));
                    }
                }
            },
            _ => {},
        }
        i += 1;
    }
    assert(orig.take(n as int) =~= orig);
    out
}

/// The outcome of reading a query: the query, a refusal with its message,
/// or an input on which the engine stops.
pub enum QueryOutcome {
    Parsed(crate::types::Query),
    Refused(String),
    Stops,
}

impl View for QueryOutcome {
    type V = QRes;

    open spec fn view(&self) -> QRes {
        match self {
            QueryOutcome::Parsed(q) => QRes::Parsed(q@),
            QueryOutcome::Refused(m) => QRes::Refused(m@),
            QueryOutcome::Stops => QRes::Stops,
        }
    }
}

/// The model of an optional name.
pub open spec fn opt_view(o: Option<String>) -> Option<Seq<char>> {
    match o {
        Some(s) => Some(s@),
        None => None,
    }
}

fn pipeline_query_exec(t: &[char]) -> (r: QueryOutcome)
    ensures
        r@ == pipeline_query(t@),
{
    let st = string_of(t);
    match crate::parser::parse_pipeline_outcome(st.as_str()) {
        crate::parser::PipelineOutcome::Stages(v) => QueryOutcome::Parsed(crate::types::Query::Pipeline(v)),
        crate::parser::PipelineOutcome::Refused(m) => QueryOutcome::Refused(m),
        crate::parser::PipelineOutcome::Stops => QueryOutcome::Stops,
    }
}

fn single_from_exec(pl: &Vec<crate::types::PipelineStage>) -> (r: Option<String>)
    ensures
        opt_view(r) == single_from(crate::types::stages_view(pl@)),
{
    if pl.len() == 1 {
        match &pl[0] {
            crate::types::PipelineStage::From { stream_name } => Some(stream_name.clone()),
            _ => None,
        }
    } else {
        None
    }
}


fn write_action_exec(a: &[char], from1: Option<String>, insert: bool) -> (r: QueryOutcome)
    requires
        7 <= a@.len(),
    ensures
        r@ == write_action(a@, opt_view(from1), insert),
{
    let err = if insert {
        owned("Insert action must be applied directly to from(stream)")
    } else {
        owned("Upsert action must be applied directly to from(stream)")
    };
    let name = match from1 {
        None => {
            return QueryOutcome::Refused(err);
        },
        Some(n) => n,
    };
    let arg = trim_chars(slice_sub(a, 7, a.len()));
    proof {
        crate::text::lemma_trim_len(a@.subrange(7, a@.len() as int));
    }
    if !(arg.len() > 0 && arg[0] == '(' && arg[arg.len() - 1] == ')') {
        return QueryOutcome::Refused(err);
    }
    let inner = trim_chars(slice_sub(arg.as_slice(), 1, arg.len() - 1));
    proof {
        crate::text::lemma_trim_len(arg@.subrange(1, arg@.len() - 1));
    }
    if inner.len() > 0 && inner[0] == '[' {
        match parse_js_array(inner.as_slice(), 0) {
            Parsed::Stop => QueryOutcome::Stops,
            Parsed::Done(JsonValue::Array(arr), _) => {
                let batch = batch_of_exec(arr);
                if insert {
                    QueryOutcome::Parsed(crate::types::Query::InsertBatch { stream_name: name, batch })
                } else {
                    QueryOutcome::Parsed(crate::types::Query::UpsertBatch { stream_name: name, batch })
                }
            },
            _ => QueryOutcome::Refused(err),
        }
    } else {
        proof {
            lemma_outer_comma_bound(inner@, 0, 0, 0, 0, false);
        }
        match outer_comma_exec(inner.as_slice()) {
            None => QueryOutcome::Refused(err),
            Some(j) => {
                let key = trim_quotes_exec(trim_chars(slice_sub(inner.as_slice(), 0, j)).as_slice());
                let val = trim_chars(slice_sub(inner.as_slice(), j + 1, inner.len()));
                match parse_js_any(val.as_slice(), 0) {
                    Parsed::Stop => QueryOutcome::Stops,
                    Parsed::NoMatch => QueryOutcome::Refused(err),
                    Parsed::Done(v, _) => {
                        let k = string_of(key.as_slice());
                        if insert {
                            QueryOutcome::Parsed(crate::types::Query::Insert { stream_name: name, key: k, value: v })
                        } else {
                            QueryOutcome::Parsed(crate::types::Query::Upsert { stream_name: name, key: k, value: v })
                        }
                    },
                }
            },
        }
    }
}

fn update_action_exec(
    t: &[char],
    pl: Vec<crate::types::PipelineStage>,
    a: &[char],
    from1: Option<String>,
) -> (r: QueryOutcome)
    requires
        7 <= a@.len(),
    ensures
        r@ == update_action(t@, crate::types::stages_view(pl@), a@, opt_view(from1)),
{
    let arg = trim_chars(slice_sub(a, 7, a.len()));
    proof {
        crate::text::lemma_trim_len(a@.subrange(7, a@.len() as int));
    }
    if !(arg.len() > 0 && arg[0] == '(' && arg[arg.len() - 1] == ')') {
        return pipeline_query_exec(t);
    }
    let inner = trim_chars(slice_sub(arg.as_slice(), 1, arg.len() - 1));
    proof {
        crate::text::lemma_trim_len(arg@.subrange(1, arg@.len() - 1));
        lemma_outer_comma_bound(inner@, 0, 0, 0, 0, false);
    }
    if let Some(name) = from1 {
        if let Some(j) = outer_comma_exec(inner.as_slice()) {
            let key = trim_quotes_exec(trim_chars(slice_sub(inner.as_slice(), 0, j)).as_slice());
            let val = trim_chars(slice_sub(inner.as_slice(), j + 1, inner.len()));
            match parse_js_any(val.as_slice(), 0) {
                Parsed::Done(v, _) => {
                    return QueryOutcome::Parsed(
                        crate::types::Query::Update { stream_name: name, key: string_of(key.as_slice()), value: v },
                    );
                },
                Parsed::Stop => {
                    return QueryOutcome::Stops;
                },
                Parsed::NoMatch => {},
            }
        }
    }
    match parse_js_any(inner.as_slice(), 0) {
        Parsed::Done(v, _) => QueryOutcome::Parsed(
            crate::types::Query::PipelineUpdate { pipeline: pl, update_value: v },
        ),
        Parsed::Stop => QueryOutcome::Stops,
        Parsed::NoMatch => pipeline_query_exec(t),
    }
}

fn action_query_exec(t: &[char], pl: Vec<crate::types::PipelineStage>, a: &[char]) -> (r: QueryOutcome)
    ensures
        r@ == action_query(t@, crate::types::stages_view(pl@), a@),
{
    proof {
        reveal_strlit(".delete");
        reveal_strlit(".empty");
        reveal_strlit(".insert");
        reveal_strlit(".upsert");
        reveal_strlit(".update");
    }
    let from1 = single_from_exec(&pl);
    if has_lit_exec(a, 0, ".delete") {
        let arg = trim_chars(slice_sub(a, 7, a.len()));
        if arg.len() > 0 && arg[0] == '(' && arg[arg.len() - 1] == ')' {
            let inner = trim_chars(slice_sub(arg.as_slice(), 1, arg.len() - 1));
            if inner.len() > 0 {
                if let Some(name) = from1 {
                    let key = trim_quotes_exec(inner.as_slice());
                    return QueryOutcome::Parsed(
                        crate::types::Query::DeleteKey { stream_name: name, key: string_of(key.as_slice()) },
                    );
                }
            }
        }
        QueryOutcome::Parsed(crate::types::Query::PipelineDelete { pipeline: pl })
    } else if has_lit_exec(a, 0, ".empty") {
        match from1 {
            Some(name) => QueryOutcome::Parsed(crate::types::Query::Empty { stream_name: name }),
            None => QueryOutcome::Refused(owned("Empty action must be applied directly to from(stream)")),
        }
    } else if has_lit_exec(a, 0, ".insert") {
        write_action_exec(a, from1, true)
    } else if has_lit_exec(a, 0, ".upsert") {
        write_action_exec(a, from1, false)
    } else if has_lit_exec(a, 0, ".update") {
        update_action_exec(t, pl, a, from1)
    } else {
        pipeline_query_exec(t)
    }
}

/// Reads a query (see [`spec_query`]), telling apart the inputs on which
/// the engine stops.
pub fn parse_query_outcome(input: &str) -> (r: QueryOutcome)
    ensures
        r@ == spec_query(input@),
{
    proof {
        reveal_strlit("streams");
        reveal_strlit("status");
    }
    let t = chars_of(crate::text::str_trim(input));
    proof {
        crate::text::lemma_trim_len(input@);
    }
    let len = t.len();
    if len == 0 {
        return QueryOutcome::Refused(owned("Empty query"));
    }
    if is_bare_command_exec(t.as_slice(), "streams") {
        return QueryOutcome::Parsed(crate::types::Query::ListStreams);
    }
    if is_bare_command_exec(t.as_slice(), "status") {
        return QueryOutcome::Parsed(crate::types::Query::Status);
    }
    if let Some((n, e)) = drop_form_exec(t.as_slice()) {
        let rem = trim_chars(slice_sub(t.as_slice(), e, len));
        if rem.len() == 0 {
            return QueryOutcome::Parsed(crate::types::Query::Drop { stream_name: n });
        } else {
            let mut m = owned("Unexpected trailing characters after drop: '");
            m.append(string_of(rem.as_slice()).as_str());
            m.append("'");
            return QueryOutcome::Refused(m);
        }
    }
    proof {
        lemma_action_dot_bound(t@, 0, 0, 0, 0, false, None);
    }
    match action_dot_exec(t.as_slice()) {
        None => pipeline_query_exec(t.as_slice()),
        Some(idx) => match char_at_byte_exec(t.as_slice(), idx) {
            None => QueryOutcome::Stops,
            Some(k) => {
                proof {
                    lemma_char_at_byte_bound(t@, 0, idx as int);
                    assert(char_at_byte(t@, idx as int) == Some(k as int));
                }
                let pp = trim_chars(slice_sub(t.as_slice(), 0, k));
                let act = trim_chars(slice_sub(t.as_slice(), k, len));
                proof {
                    crate::text::lemma_trim_len(t@.subrange(k as int, len as int));
                }
                match crate::parser::parse_pipeline_outcome(string_of(pp.as_slice()).as_str()) {
                    crate::parser::PipelineOutcome::Stops => QueryOutcome::Stops,
                    crate::parser::PipelineOutcome::Refused(m) => QueryOutcome::Refused(m),
                    crate::parser::PipelineOutcome::Stages(pl) => action_query_exec(t.as_slice(), pl, act.as_slice()),
                }
            },
        },
    }
}

proof fn lemma_action_dot_bound(
    t: Seq<char>,
    i: int,
    br: int,
    pa: int,
    bc: int,
    q: bool,
    last: Option<int>,
)
    requires
        0 <= i,
        last matches Some(x) ==> 0 <= x < t.len(),
    ensures
        action_dot_from(t, i, br, pa, bc, q, last) matches Some(j) ==> 0 <= j < t.len(),
    decreases t.len() - i,
{
    if i < t.len() {
        lemma_action_dot_bound(t, i + 1, br, pa, bc, !q, last);
        lemma_action_dot_bound(t, i + 1, br, pa, bc, q, last);
        lemma_action_dot_bound(t, i + 1, br + 1, pa, bc, q, last);
        lemma_action_dot_bound(t, i + 1, br - 1, pa, bc, q, last);
        lemma_action_dot_bound(t, i + 1, br, pa + 1, bc, q, last);
        lemma_action_dot_bound(t, i + 1, br, pa - 1, bc, q, last);
        lemma_action_dot_bound(t, i + 1, br, pa, bc + 1, q, last);
        lemma_action_dot_bound(t, i + 1, br, pa, bc - 1, q, last);
        lemma_action_dot_bound(t, i + 1, br, pa, bc, q, Some(i));
    }
}

proof fn lemma_char_at_byte_bound(t: Seq<char>, k: int, b: int)
    requires
        0 <= k,
    ensures
        char_at_byte_from(t, k, b) matches Some(j) ==> k <= j <= t.len(),
    decreases t.len() - k,
{
    if k <= t.len() && byte_offset(t, k) < b && k < t.len() {
        lemma_char_at_byte_bound(t, k + 1, b);
    }
}

/// Reads a query: `streams`, `status`, `drop(name)`, a pipeline, or a
/// pipeline followed by a write action. The engine stops on some inputs
/// (see [`spec_query`]); those are excluded.
pub fn parse_query(input: &str) -> (r: Result<crate::types::Query, String>)
    requires
        !(spec_query(input@) is Stops),
    ensures
        match spec_query(input@) {
            QRes::Parsed(q) => (r matches Ok(x) && x@ == q),
            QRes::Refused(m) => (r matches Err(e) && e@ == m),
            QRes::Stops => false,
        },
{
    match parse_query_outcome(input) {
        QueryOutcome::Parsed(q) => Ok(q),
        QueryOutcome::Refused(m) => Err(m),
        QueryOutcome::Stops => Err(String::new()),
    }
}

} // verus!
