//! The pipeline query language.
//!
//! Each parser reads a character sequence from a position and either returns
//! what it read with the position after it (`Done`), does not match (`NoMatch`),
//! or reaches an input on which the engine stops (`Abort`: a number literal
//! out of range where the engine requires it to fit). The `spec_*` functions
//! define the grammar; each executable parser returns exactly what its
//! `spec_*` function says.
use crate::text::{string_of, string_push};
use crate::types::strings_view;
use vstd::string::StringExecFns;
use crate::types::{
    data_values_view,    AggregateStrategy, DataValue, DataValueV, ExportFormat, FilterExpr, FilterExprV, JsonV,
    JsonValue, Op, PipelineStage, Query, QueryV, StageV,
};
use vstd::prelude::*;
use vstd::slice::slice_subrange;

verus! {

/// Outcome of a parser in the grammar's definition.
pub enum Res<V> {
    Done(V, int),
    NoMatch,
    Abort,
}

/// Whether an executable parser's result is the grammar's result.
pub open spec fn agrees<T: View>(r: Option<(T, usize)>, s: Res<T::V>) -> bool {
    match s {
        Res::Done(v, q) => (r matches Some((t, p)) && t@ == v && p as int == q),
        Res::NoMatch => r is None,
        Res::Abort => false,
    }
}

/// Outcome of an executable parser: what it read and the position after it,
/// no match, or an input on which the engine stops.
pub enum Parsed<T> {
    Done(T, usize),
    NoMatch,
    Stop,
}

/// Whether an executable parser's three-way outcome is the grammar's result.
pub open spec fn agrees3<T: View>(r: Parsed<T>, s: Res<T::V>) -> bool {
    match s {
        Res::Done(v, q) => (r matches Parsed::Done(t, p) && t@ == v && p as int == q),
        Res::NoMatch => r is NoMatch,
        Res::Abort => r is Stop,
    }
}

/// Whether the outcome is `Abort`.
pub open spec fn aborts<V>(r: Res<V>) -> bool {
    r is Abort
}

// ---------------------------------------------------------------- characters

/// Whether `char::is_alphabetic` holds of the character (Unicode `Alphabetic`).
pub uninterp spec fn char_is_alphabetic(c: char) -> bool;

/// Whether `char::is_alphanumeric` holds of the character (Unicode
/// `Alphabetic` or numeric).
pub uninterp spec fn char_is_alphanumeric(c: char) -> bool;

/// Whether a character is alphabetic (std `char::is_alphabetic`). Of ASCII
/// characters exactly the letters are.
#[verifier::external_body]
pub(crate) fn is_alphabetic(c: char) -> (b: bool)
    ensures
        b == char_is_alphabetic(c),
        ('a' <= c <= 'z' || 'A' <= c <= 'Z') ==> b,
        ((c as u32) < 128 && !('a' <= c <= 'z' || 'A' <= c <= 'Z')) ==> !b,
{
    c.is_alphabetic()
}

/// Whether a character is alphanumeric (std `char::is_alphanumeric`). Of
/// ASCII characters exactly the letters and digits are.
#[verifier::external_body]
pub(crate) fn is_alphanumeric(c: char) -> (b: bool)
    ensures
        b == char_is_alphanumeric(c),
        ('a' <= c <= 'z' || 'A' <= c <= 'Z' || '0' <= c <= '9') ==> b,
        ((c as u32) < 128 && !('a' <= c <= 'z' || 'A' <= c <= 'Z' || '0' <= c <= '9')) ==> !b,
{
    c.is_alphanumeric()
}

/// The whitespace that the grammar skips between tokens.
pub open spec fn is_ms(c: char) -> bool {
    c == ' ' || c == '\t' || c == '\r' || c == '\n'
}

pub open spec fn is_digit(c: char) -> bool {
    '0' <= c <= '9'
}

pub open spec fn is_ident_start(c: char) -> bool {
    char_is_alphabetic(c) || c == '_'
}

pub open spec fn is_ident_char(c: char) -> bool {
    char_is_alphanumeric(c) || c == '_'
}

/// The position after the whitespace that starts at `p`.
pub open spec fn ws_end(s: Seq<char>, p: int) -> int
    decreases s.len() - p,
{
    if 0 <= p < s.len() && is_ms(s[p]) {
        ws_end(s, p + 1)
    } else {
        p
    }
}

/// The position after the digits that start at `p`.
pub open spec fn digits_end(s: Seq<char>, p: int) -> int
    decreases s.len() - p,
{
    if 0 <= p < s.len() && is_digit(s[p]) {
        digits_end(s, p + 1)
    } else {
        p
    }
}

/// The position after the identifier-start characters that start at `p`.
pub open spec fn ident_start_end(s: Seq<char>, p: int) -> int
    decreases s.len() - p,
{
    if 0 <= p < s.len() && is_ident_start(s[p]) {
        ident_start_end(s, p + 1)
    } else {
        p
    }
}

/// The position after the identifier characters that start at `p`.
pub open spec fn ident_char_end(s: Seq<char>, p: int) -> int
    decreases s.len() - p,
{
    if 0 <= p < s.len() && is_ident_char(s[p]) {
        ident_char_end(s, p + 1)
    } else {
        p
    }
}

/// The position of the first `"` at or after `p`, or the end.
pub open spec fn quote_end(s: Seq<char>, p: int) -> int
    decreases s.len() - p,
{
    if 0 <= p < s.len() && s[p] != '"' {
        quote_end(s, p + 1)
    } else {
        p
    }
}

/// Whether the text `lit` stands at position `p`.
pub open spec fn has_lit(s: Seq<char>, p: int, lit: Seq<char>) -> bool {
    0 <= p && p + lit.len() <= s.len() && s.subrange(p, p + lit.len()) == lit
}

/// Whether the character `c` stands at position `p`.
pub open spec fn has_char(s: Seq<char>, p: int, c: char) -> bool {
    0 <= p < s.len() && s[p] == c
}

/// An identifier: a letter or `_`, then letters, digits and `_`.
pub open spec fn spec_identifier(s: Seq<char>, p: int) -> Res<Seq<char>> {
    let e1 = ident_start_end(s, p);
    if e1 == p {
        Res::NoMatch
    } else {
        let e2 = ident_char_end(s, e1);
        Res::Done(s.subrange(p, e2), e2)
    }
}

/// A string literal: `"` up to the next `"`, without escapes.
pub open spec fn spec_string_literal(s: Seq<char>, p: int) -> Res<Seq<char>> {
    if !has_char(s, p, '"') {
        Res::NoMatch
    } else {
        let e = quote_end(s, p + 1);
        if e < s.len() {
            Res::Done(s.subrange(p + 1, e), e + 1)
        } else {
            Res::NoMatch
        }
    }
}

/// A string literal or an identifier.
pub open spec fn spec_string_or_ident(s: Seq<char>, p: int) -> Res<Seq<char>> {
    match spec_string_literal(s, p) {
        Res::NoMatch => spec_identifier(s, p),
        r => r,
    }
}

pub fn ws_end_exec(s: &[char], p: usize) -> (r: usize)
    requires
        p <= s@.len(),
    ensures
        r == ws_end(s@, p as int),
        p <= r <= s@.len(),
{
    let mut i = p;
    while i < s.len() && (s[i] == ' ' || s[i] == '\t' || s[i] == '\r' || s[i] == '\n')
        invariant
            p <= i <= s@.len(),
            ws_end(s@, p as int) == ws_end(s@, i as int),
        decreases s.len() - i,
    {
        i += 1;
    }
    i
}

pub fn digits_end_exec(s: &[char], p: usize) -> (r: usize)
    requires
        p <= s@.len(),
    ensures
        r == digits_end(s@, p as int),
        p <= r <= s@.len(),
        forall|k: int| p <= k < r ==> is_digit(#[trigger] s@[k]),
{
    let mut i = p;
    while i < s.len() && '0' <= s[i] && s[i] <= '9'
        invariant
            p <= i <= s@.len(),
            digits_end(s@, p as int) == digits_end(s@, i as int),
            forall|k: int| p <= k < i ==> is_digit(#[trigger] s@[k]),
        decreases s.len() - i,
    {
        i += 1;
    }
    i
}

fn quote_end_exec(s: &[char], p: usize) -> (r: usize)
    requires
        p <= s@.len(),
    ensures
        r == quote_end(s@, p as int),
        p <= r <= s@.len(),
{
    let mut i = p;
    while i < s.len() && s[i] != '"'
        invariant
            p <= i <= s@.len(),
            quote_end(s@, p as int) == quote_end(s@, i as int),
        decreases s.len() - i,
    {
        i += 1;
    }
    i
}

/// Whether the literal text stands at position `p`.
pub fn has_lit_exec(s: &[char], p: usize, lit: &str) -> (r: bool)
    requires
        p <= s@.len(),
    ensures
        r == has_lit(s@, p as int, lit@),
{
    let l = crate::text::chars_of(lit);
    if l.len() > s.len() - p {
        return false;
    }
    let mut i: usize = 0;
    while i < l.len()
        invariant
            i <= l@.len(),
            p + l.len() <= s.len(),
            l@ == lit@,
            forall|k: int| 0 <= k < i ==> s@[p + k] == l@[k],
        decreases l.len() - i,
    {
        if s[p + i] != l[i] {
            assert(s@.subrange(p as int, p + l@.len())[i as int] != l@[i as int]);
            return false;
        }
        i += 1;
    }
    assert(s@.subrange(p as int, p + l@.len()) =~= l@);
    true
}

/// Whether the character stands at position `p`.
pub fn has_char_exec(s: &[char], p: usize, c: char) -> (r: bool)
    ensures
        r == has_char(s@, p as int, c),
{
    p < s.len() && s[p] == c
}

/// The characters `s[a..b]` as a string.
pub fn substring(s: &[char], a: usize, b: usize) -> (r: String)
    requires
        a <= b <= s@.len(),
    ensures
        r@ == s@.subrange(a as int, b as int),
{
    string_of(slice_subrange(s, a, b))
}

pub fn parse_identifier(s: &[char], p: usize) -> (r: Option<(String, usize)>)
    requires
        p <= s@.len(),
    ensures
        r matches Some((_, q)) ==> q <= s@.len(),
        agrees(r, spec_identifier(s@, p as int)),
{
    let mut e1 = p;
    while e1 < s.len() && (is_alphabetic(s[e1]) || s[e1] == '_')
        invariant
            p <= e1 <= s@.len(),
            ident_start_end(s@, p as int) == ident_start_end(s@, e1 as int),
        decreases s.len() - e1,
    {
        e1 += 1;
    }
    if e1 == p {
        return None;
    }
    let mut e2 = e1;
    while e2 < s.len() && (is_alphanumeric(s[e2]) || s[e2] == '_')
        invariant
            e1 <= e2 <= s@.len(),
            ident_char_end(s@, e1 as int) == ident_char_end(s@, e2 as int),
        decreases s.len() - e2,
    {
        e2 += 1;
    }
    Some((substring(s, p, e2), e2))
}

pub fn parse_string_literal(s: &[char], p: usize) -> (r: Option<(String, usize)>)
    requires
        p <= s@.len(),
    ensures
        r matches Some((_, q)) ==> q <= s@.len(),
        agrees(r, spec_string_literal(s@, p as int)),
{
    if p >= s.len() || s[p] != '"' {
        return None;
    }
    let e = quote_end_exec(s, p + 1);
    if e < s.len() {
        Some((substring(s, p + 1, e), e + 1))
    } else {
        None
    }
}

pub fn parse_string_or_ident(s: &[char], p: usize) -> (r: Option<(String, usize)>)
    requires
        p <= s@.len(),
    ensures
        r matches Some((_, q)) ==> q <= s@.len(),
        agrees(r, spec_string_or_ident(s@, p as int)),
{
    match parse_string_literal(s, p) {
        Some(x) => Some(x),
        None => parse_identifier(s, p),
    }
}


// ------------------------------------------------------------------ positions

/// Skipping whitespace, digits or identifier characters never moves back and
/// never leaves the text.
pub proof fn lemma_ws_end(s: Seq<char>, p: int)
    ensures
        p <= ws_end(s, p),
        p <= s.len() ==> ws_end(s, p) <= s.len(),
    decreases s.len() - p,
{
    if 0 <= p < s.len() && is_ms(s[p]) {
        lemma_ws_end(s, p + 1);
    }
}

pub proof fn lemma_digits_end(s: Seq<char>, p: int)
    requires
        0 <= p <= s.len(),
    ensures
        p <= digits_end(s, p) <= s.len(),
        forall|k: int| p <= k < digits_end(s, p) ==> is_digit(#[trigger] s[k]),
    decreases s.len() - p,
{
    if p < s.len() && is_digit(s[p]) {
        lemma_digits_end(s, p + 1);
    }
}

// -------------------------------------------------------------------- values

/// The number that the decimal digits `s[a..b]` denote.
pub open spec fn digits_value(s: Seq<char>, a: int, b: int) -> nat
    decreases b - a,
{
    if b <= a {
        0
    } else {
        digits_value(s, a, b - 1) * 10 + ((s[b - 1] as int) - ('0' as int)) as nat
    }
}

/// A number: an optional `-`, digits, and an optional `.` with digits. A
/// number with a fraction is a float (its text); a negative one an `Int`;
/// another a `UInt`. The engine stops on an integer that does not fit.
pub open spec fn spec_number(s: Seq<char>, p: int) -> Res<DataValueV> {
    let neg = has_char(s, p, '-');
    let p1 = if neg {
        p + 1
    } else {
        p
    };
    let p2 = digits_end(s, p1);
    if p2 == p1 {
        Res::NoMatch
    } else if has_char(s, p2, '.') && digits_end(s, p2 + 1) > p2 + 1 {
        let p3 = digits_end(s, p2 + 1);
        Res::Done(DataValueV::Float(s.subrange(p, p3)), p3)
    } else {
        let v = digits_value(s, p1, p2);
        if neg {
            if v <= 0x8000_0000_0000_0000 {
                Res::Done(DataValueV::Int((0 - v) as i64), p2)
            } else {
                Res::Abort
            }
        } else if v <= u64::MAX {
            Res::Done(DataValueV::UInt(v as u64), p2)
        } else {
            Res::Abort
        }
    }
}

proof fn lemma_digits_value_mono(s: Seq<char>, a: int, k: int, b: int)
    requires
        a <= k <= b,
        forall|i: int| a <= i < b ==> is_digit(#[trigger] s[i]),
    ensures
        digits_value(s, a, k) <= digits_value(s, a, b),
    decreases b - k,
{
    if k < b {
        lemma_digits_value_mono(s, a, k + 1, b);
        assert(digits_value(s, a, k + 1) == digits_value(s, a, k) * 10 + ((s[k] as int) - ('0' as int)) as nat);
    }
}

/// The value of the decimal digits `s[a..b]`, or `None` when it exceeds
/// `u64::MAX`.
pub fn digits_value_exec(s: &[char], a: usize, b: usize) -> (r: Option<u64>)
    requires
        a <= b <= s@.len(),
        forall|i: int| a <= i < b ==> is_digit(#[trigger] s@[i]),
    ensures
        r matches Some(v) ==> v == digits_value(s@, a as int, b as int),
        r is None ==> digits_value(s@, a as int, b as int) > u64::MAX,
{
    let mut v: u64 = 0;
    let mut i = a;
    while i < b
        invariant
            a <= i <= b <= s@.len(),
            forall|k: int| a <= k < b ==> is_digit(#[trigger] s@[k]),
            v == digits_value(s@, a as int, i as int),
        decreases b - i,
    {
        let d = (s[i] as u32 - 48) as u64;
        assert(d == (s@[i as int] as int) - ('0' as int));
        if v > (u64::MAX - d) / 10 {
            proof {
                assert(digits_value(s@, a as int, i + 1) > u64::MAX) by (nonlinear_arith)
                    requires
                        v > (u64::MAX - d) / 10,
                        digits_value(s@, a as int, i + 1) == v * 10 + d,
                        d <= 9,
                ;
                lemma_digits_value_mono(s@, a as int, i + 1, b as int);
            }
            return None;
        }
        assert(v * 10 + d <= u64::MAX) by (nonlinear_arith)
            requires
                v <= (u64::MAX - d) / 10,
                d <= 9,
        ;
        v = v * 10 + d;
        i += 1;
    }
    Some(v)
}

pub fn parse_number(s: &[char], p: usize) -> (r: Parsed<DataValue>)
    requires
        p <= s@.len(),
    ensures
        r matches Parsed::Done(_, q) ==> q <= s@.len(),
        agrees3(r, spec_number(s@, p as int)),
{
    let len = s.len();
    let neg = has_char_exec(s, p, '-');
    let p1 = if neg {
        p + 1
    } else {
        p
    };
    let p2 = digits_end_exec(s, p1);
    if p2 == p1 {
        return Parsed::NoMatch;
    }
    if has_char_exec(s, p2, '.') {
        let p3 = digits_end_exec(s, p2 + 1);
        if p3 > p2 + 1 {
            return Parsed::Done(DataValue::Float(substring(s, p, p3)), p3);
        }
    }
    match digits_value_exec(s, p1, p2) {
        Some(v) => {
            if neg {
                if v <= 0x8000_0000_0000_0000 {
                    let iv: i64 = if v == 0x8000_0000_0000_0000 {
                        i64::MIN
                    } else {
                        0 - (v as i64)
                    };
                    Parsed::Done(DataValue::Int(iv), p2)
                } else {
                    Parsed::Stop
                }
            } else {
                Parsed::Done(DataValue::UInt(v), p2)
            }
        },
        None => Parsed::Stop,
    }
}


/// Puts already-read items in front of a list result.
pub open spec fn prepend<V>(items: Seq<V>, r: Res<Seq<V>>) -> Res<Seq<V>> {
    match r {
        Res::Done(rest, e) => Res::Done(items + rest, e),
        Res::NoMatch => Res::NoMatch,
        Res::Abort => Res::Abort,
    }
}

/// A value: a string literal, `null`, `true`, `false`, a number or an array.
pub open spec fn spec_data_value(s: Seq<char>, p: int) -> Res<DataValueV>
    decreases s.len() - p, 2int,
{
    if p < 0 || p > s.len() {
        Res::NoMatch
    } else {
        match spec_string_literal(s, p) {
            Res::Done(t, e) => Res::Done(DataValueV::Str(t), e),
            _ => if has_lit(s, p, "null"@) {
                Res::Done(DataValueV::Null, p + 4)
            } else if has_lit(s, p, "true"@) {
                Res::Done(DataValueV::Bool(true), p + 4)
            } else if has_lit(s, p, "false"@) {
                Res::Done(DataValueV::Bool(false), p + 5)
            } else {
                match spec_number(s, p) {
                    Res::NoMatch => spec_array_literal(s, p),
                    r => r,
                }
            },
        }
    }
}

/// An array: `[`, values separated by `,`, `]`, with whitespace around.
pub open spec fn spec_array_literal(s: Seq<char>, p: int) -> Res<DataValueV>
    decreases s.len() - p, 1int,
{
    if !has_char(s, p, '[') {
        Res::NoMatch
    } else {
        let q = ws_end(s, p + 1);
        proof {
            lemma_ws_end(s, p + 1);
        }
        match spec_value_list(s, q) {
            Res::Done(items, e) => {
                let e2 = ws_end(s, e);
                if has_char(s, e2, ']') {
                    Res::Done(DataValueV::Array(items), e2 + 1)
                } else {
                    Res::NoMatch
                }
            },
            Res::NoMatch => Res::NoMatch,
            Res::Abort => Res::Abort,
        }
    }
}

/// Values separated by `,` (possibly none), starting at `q`.
pub open spec fn spec_value_list(s: Seq<char>, q: int) -> Res<Seq<DataValueV>>
    decreases s.len() - q, 3int,
{
    if q < 0 || q > s.len() {
        Res::NoMatch
    } else {
        match spec_data_value(s, q) {
            Res::NoMatch => Res::Done(Seq::empty(), q),
            Res::Abort => Res::Abort,
            Res::Done(v, e) => if q < e <= s.len() {
                prepend(seq![v], spec_value_list_rest(s, e))
            } else {
                Res::NoMatch
            },
        }
    }
}

/// The values after the first one: each preceded by `,`; the list ends
/// before a separator that is not followed by a value.
pub open spec fn spec_value_list_rest(s: Seq<char>, p: int) -> Res<Seq<DataValueV>>
    decreases s.len() - p, 4int,
{
    if p < 0 || p > s.len() {
        Res::NoMatch
    } else {
        let q1 = ws_end(s, p);
        proof {
            lemma_ws_end(s, p);
        }
        if !has_char(s, q1, ',') {
            Res::Done(Seq::empty(), p)
        } else {
            let q = ws_end(s, q1 + 1);
            proof {
                lemma_ws_end(s, q1 + 1);
            }
            match spec_data_value(s, q) {
                Res::NoMatch => Res::Done(Seq::empty(), p),
                Res::Abort => Res::Abort,
                Res::Done(v, e) => if q < e <= s.len() {
                    prepend(seq![v], spec_value_list_rest(s, e))
                } else {
                    Res::NoMatch
                },
            }
        }
    }
}

pub fn parse_data_value(s: &[char], p: usize) -> (r: Parsed<DataValue>)
    requires
        p <= s@.len(),
    ensures
        r matches Parsed::Done(_, q) ==> q <= s@.len(),
        agrees3(r, spec_data_value(s@, p as int)),
    decreases s@.len() - p, 2int,
{
    let len = s.len();
    proof {
        reveal_strlit("null");
        reveal_strlit("true");
        reveal_strlit("false");
    }
    if let Some((t, e)) = parse_string_literal(s, p) {
        return Parsed::Done(DataValue::String(t), e);
    }
    if has_lit_exec(s, p, "null") {
        return Parsed::Done(DataValue::Null, p + 4);
    }
    if has_lit_exec(s, p, "true") {
        return Parsed::Done(DataValue::Bool(true), p + 4);
    }
    if has_lit_exec(s, p, "false") {
        return Parsed::Done(DataValue::Bool(false), p + 5);
    }
    match parse_number(s, p) {
        Parsed::NoMatch => parse_array_literal(s, p),
        r => r,
    }
}

pub fn parse_array_literal(s: &[char], p: usize) -> (r: Parsed<DataValue>)
    requires
        p <= s@.len(),
    ensures
        r matches Parsed::Done(_, q) ==> q <= s@.len(),
        agrees3(r, spec_array_literal(s@, p as int)),
    decreases s@.len() - p, 1int,
{
    let len = s.len();
    if !has_char_exec(s, p, '[') {
        return Parsed::NoMatch;
    }
    let q = ws_end_exec(s, p + 1);
    match parse_value_list(s, q) {
        Parsed::Done(items, e) => {
            let e2 = ws_end_exec(s, e);
            if has_char_exec(s, e2, ']') {
                Parsed::Done(DataValue::Array(items), e2 + 1)
            } else {
                Parsed::NoMatch
            }
        },
        Parsed::NoMatch => Parsed::NoMatch,
        Parsed::Stop => Parsed::Stop,
    }
}

pub fn parse_value_list(s: &[char], q: usize) -> (r: Parsed<Vec<DataValue>>)
    requires
        q <= s@.len(),
    ensures
        match spec_value_list(s@, q as int) {
            Res::Done(vs, e) => (r matches Parsed::Done(out, p) && data_values_view(out@) == vs && p as int == e
                && p <= s@.len()),
            Res::NoMatch => r is NoMatch,
            Res::Abort => r is Stop,
        },
    decreases s@.len() - q, 3int,
{
    let len = s.len();
    let mut out: Vec<DataValue> = Vec::new();
    let (v, e) = match parse_data_value(s, q) {
        Parsed::NoMatch => {
            return Parsed::Done(out, q);
        },
        Parsed::Stop => {
            return Parsed::Stop;
        },
        Parsed::Done(v, e) => (v, e),
    };
    if !(q < e && e <= len) {
        return Parsed::NoMatch;
    }
    out.push(v);
    let mut cur = e;
    proof {
        crate::types::lemma_data_values_view_push(Seq::empty(), out@[0]);
        assert(Seq::<DataValue>::empty().push(out@[0]) =~= out@);
        assert(data_values_view(out@) =~= seq![out@[0]@]);
    }
    loop
        invariant
            q < cur <= s@.len(),
            len == s@.len(),
            spec_value_list(s@, q as int) == prepend(data_values_view(out@), spec_value_list_rest(s@, cur as int)),
        decreases s@.len() - cur,
    {
        proof {
            lemma_ws_end(s@, cur as int);
        }
        let q1 = ws_end_exec(s, cur);
        if !has_char_exec(s, q1, ',') {
            proof {
                assert(data_values_view(out@) + Seq::<DataValueV>::empty() =~= data_values_view(out@));
            }
            return Parsed::Done(out, cur);
        }
        let qn = ws_end_exec(s, q1 + 1);
        match parse_data_value(s, qn) {
            Parsed::NoMatch => {
                proof {
                    assert(data_values_view(out@) + Seq::<DataValueV>::empty() =~= data_values_view(out@));
                }
                return Parsed::Done(out, cur);
            },
            Parsed::Stop => {
                return Parsed::Stop;
            },
            Parsed::Done(v, e) => {
                if !(qn < e && e <= len) {
                    return Parsed::NoMatch;
                }
                let ghost old_out = out@;
                out.push(v);
                proof {
                    crate::types::lemma_data_values_view_push(old_out, v);
                    assert(data_values_view(out@) =~= data_values_view(old_out) + seq![v@]);
                    match spec_value_list_rest(s@, e as int) {
                        Res::Done(rest, e3) => {
                            assert(data_values_view(out@) + rest =~= data_values_view(old_out) + (seq![v@]
                                + rest));
                        },
                        _ => {},
                    }
                }
                cur = e;
            },
        }
    }
}


// ------------------------------------------------------------------- filters

/// The comparison symbols read as their operators: `<` alone is "less
/// than", `>` alone "greater than", `<=`, `>=`, `==` and `!=` the two-character
/// operators, `in` membership and `startsWith` the prefix test, each followed
/// by the position just past the symbol; a position that starts none of them
/// holds no operator.
pub proof fn lemma_comparison_symbols(s: Seq<char>, p: int)
    requires
        0 <= p < s.len(),
    ensures
        s[p] == '<' && (p + 1 == s.len() || s[p + 1] != '=') ==> spec_op(s, p) == Res::Done(Op::Lt, p + 1),
        s[p] == '>' && (p + 1 == s.len() || s[p + 1] != '=') ==> spec_op(s, p) == Res::Done(Op::Gt, p + 1),
        p + 1 < s.len() && s[p] == '<' && s[p + 1] == '=' ==> spec_op(s, p) == Res::Done(Op::LtEq, p + 2),
        p + 1 < s.len() && s[p] == '>' && s[p + 1] == '=' ==> spec_op(s, p) == Res::Done(Op::GtEq, p + 2),
        p + 1 < s.len() && s[p] == '=' && s[p + 1] == '=' ==> spec_op(s, p) == Res::Done(Op::Eq, p + 2),
        p + 1 < s.len() && s[p] == '!' && s[p + 1] == '=' ==> spec_op(s, p) == Res::Done(Op::NotEq, p + 2),
        p + 1 < s.len() && s[p] == 'i' && s[p + 1] == 'n' ==> spec_op(s, p) == Res::Done(Op::In, p + 2),
        p + 10 <= s.len() && s.subrange(p, p + 10) == "startsWith"@ ==> spec_op(s, p) == Res::Done(
            Op::StartsWith,
            p + 10,
        ),
        s[p] != '=' && s[p] != '!' && s[p] != '<' && s[p] != '>' && s[p] != 'i' && s[p] != 's' ==> spec_op(s, p)
            == Res::<Op>::NoMatch,
{
    reveal_strlit("in");
    reveal_strlit("startsWith");
    lemma_has_lit_chars(s, p, "in"@);
    lemma_has_lit_chars(s, p, "startsWith"@);
    assert("in"@[0] == 'i' && "in"@[1] == 'n');
    assert("startsWith"@[0] == 's');
    reveal_strlit("==");
    reveal_strlit("!=");
    reveal_strlit(">=");
    reveal_strlit("<=");
    reveal_strlit(">");
    reveal_strlit("<");
    lemma_has_lit_chars(s, p, "=="@);
    lemma_has_lit_chars(s, p, "!="@);
    lemma_has_lit_chars(s, p, ">="@);
    lemma_has_lit_chars(s, p, "<="@);
    lemma_has_lit_chars(s, p, ">"@);
    lemma_has_lit_chars(s, p, "<"@);
    assert("=="@[0] == '=' && "=="@[1] == '=');
    assert("!="@[0] == '!' && "!="@[1] == '=');
    assert(">="@[0] == '>' && ">="@[1] == '=');
    assert("<="@[0] == '<' && "<="@[1] == '=');
    assert(">"@[0] == '>' && "<"@[0] == '<');
}

/// A literal stands at `p` exactly when its characters do, one by one.
proof fn lemma_has_lit_chars(s: Seq<char>, p: int, lit: Seq<char>)
    requires
        0 <= p,
    ensures
        has_lit(s, p, lit) <==> (p + lit.len() <= s.len() && forall|k: int| 0 <= k < lit.len() ==> s[p + k] == #[trigger] lit[k]),
{
    if p + lit.len() <= s.len() {
        if has_lit(s, p, lit) {
            assert forall|k: int| 0 <= k < lit.len() implies s[p + k] == #[trigger] lit[k] by {
                assert(s.subrange(p, p + lit.len())[k] == s[p + k]);
            }
        }
        if forall|k: int| 0 <= k < lit.len() ==> s[p + k] == #[trigger] lit[k] {
            assert(s.subrange(p, p + lit.len()) =~= lit);
        }
    }
}

/// A comparison operator; the first of `==`, `!=`, `>=`, `<=`, `>`, `<`,
/// `in`, `startsWith` that stands at `p`.
pub open spec fn spec_op(s: Seq<char>, p: int) -> Res<Op> {
    if has_lit(s, p, "=="@) {
        Res::Done(Op::Eq, p + 2)
    } else if has_lit(s, p, "!="@) {
        Res::Done(Op::NotEq, p + 2)
    } else if has_lit(s, p, ">="@) {
        Res::Done(Op::GtEq, p + 2)
    } else if has_lit(s, p, "<="@) {
        Res::Done(Op::LtEq, p + 2)
    } else if has_lit(s, p, ">"@) {
        Res::Done(Op::Gt, p + 1)
    } else if has_lit(s, p, "<"@) {
        Res::Done(Op::Lt, p + 1)
    } else if has_lit(s, p, "in"@) {
        Res::Done(Op::In, p + 2)
    } else if has_lit(s, p, "startsWith"@) {
        Res::Done(Op::StartsWith, p + 10)
    } else {
        Res::NoMatch
    }
}

/// A comparison: a field, an operator and a value, each with whitespace around.
pub open spec fn spec_simple_filter(s: Seq<char>, p: int) -> Res<FilterExprV> {
    match spec_identifier(s, ws_end(s, p)) {
        Res::Done(field, e1) => match spec_op(s, ws_end(s, ws_end(s, e1))) {
            Res::Done(op, e2) => match spec_data_value(s, ws_end(s, ws_end(s, e2))) {
                Res::Done(v, e3) => Res::Done(
                    FilterExprV::Simple { field, operator: op, value: v },
                    ws_end(s, e3),
                ),
                Res::NoMatch => Res::NoMatch,
                Res::Abort => Res::Abort,
            },
            _ => Res::NoMatch,
        },
        _ => Res::NoMatch,
    }
}

/// A comparison written `field < value` is a "less than" comparison of that
/// field with that value, and `field > value` a "greater than" one: the
/// symbol between the field and the value decides the operator.
pub proof fn lemma_simple_filter_symbol(s: Seq<char>, p: int, field: Seq<char>, e1: int, v: DataValueV, e3: int)
    requires
        spec_identifier(s, ws_end(s, p)) == Res::Done(field, e1),
        0 <= ws_end(s, ws_end(s, e1)) < s.len(),
        ws_end(s, ws_end(s, e1)) + 1 == s.len() || s[ws_end(s, ws_end(s, e1)) + 1] != '=',
        spec_data_value(s, ws_end(s, ws_end(s, ws_end(s, ws_end(s, e1)) + 1))) == Res::Done(v, e3),
    ensures
        s[ws_end(s, ws_end(s, e1))] == '<' ==> spec_simple_filter(s, p) == Res::Done(
            FilterExprV::Simple { field, operator: Op::Lt, value: v },
            ws_end(s, e3),
        ),
        s[ws_end(s, ws_end(s, e1))] == '>' ==> spec_simple_filter(s, p) == Res::Done(
            FilterExprV::Simple { field, operator: Op::Gt, value: v },
            ws_end(s, e3),
        ),
{
    lemma_comparison_symbols(s, ws_end(s, ws_end(s, e1)));
}

/// A filter expression: conditions joined by `or`, each of them conditions
/// joined by `and`, each of them a comparison or a parenthesized expression.
pub open spec fn spec_filter_expr(s: Seq<char>, p: int) -> Res<FilterExprV>
    decreases s.len() - p, 4int,
{
    if p < 0 || p > s.len() {
        Res::NoMatch
    } else {
        match spec_and_expr(s, p) {
            Res::Done(l, e) => if p <= e <= s.len() {
                spec_or_rest(s, l, e)
            } else {
                Res::NoMatch
            },
            r => r,
        }
    }
}

/// After a left operand ending at `p`: further `or` operands, grouped to the left.
pub open spec fn spec_or_rest(s: Seq<char>, left: FilterExprV, p: int) -> Res<FilterExprV>
    decreases s.len() - p, 0int,
{
    if p < 0 || p > s.len() {
        Res::NoMatch
    } else {
        let q1 = ws_end(s, p);
        proof {
            lemma_ws_end(s, p);
            reveal_strlit("or");
        }
        if !has_lit(s, q1, "or"@) {
            Res::Done(left, p)
        } else {
            let q = ws_end(s, q1 + 2);
            proof {
                lemma_ws_end(s, q1 + 2);
            }
            match spec_and_expr(s, q) {
                Res::Done(r, e) => if q <= e <= s.len() {
                    spec_or_rest(
                        s,
                        FilterExprV::Or { left: Box::new(left), right: Box::new(r) },
                        e,
                    )
                } else {
                    Res::NoMatch
                },
                Res::NoMatch => Res::NoMatch,
                Res::Abort => Res::Abort,
            }
        }
    }
}

/// Conditions joined by `and`.
pub open spec fn spec_and_expr(s: Seq<char>, p: int) -> Res<FilterExprV>
    decreases s.len() - p, 3int,
{
    if p < 0 || p > s.len() {
        Res::NoMatch
    } else {
        match spec_primary(s, p) {
            Res::Done(l, e) => if p <= e <= s.len() {
                spec_and_rest(s, l, e)
            } else {
                Res::NoMatch
            },
            r => r,
        }
    }
}

/// After a left operand ending at `p`: further `and` operands, grouped to the left.
pub open spec fn spec_and_rest(s: Seq<char>, left: FilterExprV, p: int) -> Res<FilterExprV>
    decreases s.len() - p, 0int,
{
    if p < 0 || p > s.len() {
        Res::NoMatch
    } else {
        let q1 = ws_end(s, p);
        proof {
            lemma_ws_end(s, p);
            reveal_strlit("and");
        }
        if !has_lit(s, q1, "and"@) {
            Res::Done(left, p)
        } else {
            let q = ws_end(s, q1 + 3);
            proof {
                lemma_ws_end(s, q1 + 3);
            }
            match spec_primary(s, q) {
                Res::Done(r, e) => if q <= e <= s.len() {
                    spec_and_rest(
                        s,
                        FilterExprV::And { left: Box::new(left), right: Box::new(r) },
                        e,
                    )
                } else {
                    Res::NoMatch
                },
                Res::NoMatch => Res::NoMatch,
                Res::Abort => Res::Abort,
            }
        }
    }
}

/// A parenthesized filter expression, or else a comparison.
pub open spec fn spec_primary(s: Seq<char>, p: int) -> Res<FilterExprV>
    decreases s.len() - p, 2int,
{
    if p < 0 || p > s.len() {
        Res::NoMatch
    } else if has_char(s, p, '(') {
        let q = ws_end(s, p + 1);
        proof {
            lemma_ws_end(s, p + 1);
        }
        match spec_filter_expr(s, q) {
            Res::Done(x, e) => {
                let e2 = ws_end(s, e);
                if has_char(s, e2, ')') {
                    Res::Done(x, e2 + 1)
                } else {
                    spec_simple_filter(s, p)
                }
            },
            Res::NoMatch => spec_simple_filter(s, p),
            Res::Abort => Res::Abort,
        }
    } else {
        spec_simple_filter(s, p)
    }
}

pub fn parse_op(s: &[char], p: usize) -> (r: Option<(Op, usize)>)
    requires
        p <= s@.len(),
    ensures
        r matches Some((_, q)) ==> q <= s@.len(),
        agrees(r, spec_op(s@, p as int)),
{
    let len = s.len();
    proof {
        reveal_strlit("==");
        reveal_strlit("!=");
        reveal_strlit(">=");
        reveal_strlit("<=");
        reveal_strlit(">");
        reveal_strlit("<");
        reveal_strlit("in");
        reveal_strlit("startsWith");
    }
    if has_lit_exec(s, p, "==") {
        Some((Op::Eq, p + 2))
    } else if has_lit_exec(s, p, "!=") {
        Some((Op::NotEq, p + 2))
    } else if has_lit_exec(s, p, ">=") {
        Some((Op::GtEq, p + 2))
    } else if has_lit_exec(s, p, "<=") {
        Some((Op::LtEq, p + 2))
    } else if has_lit_exec(s, p, ">") {
        Some((Op::Gt, p + 1))
    } else if has_lit_exec(s, p, "<") {
        Some((Op::Lt, p + 1))
    } else if has_lit_exec(s, p, "in") {
        Some((Op::In, p + 2))
    } else if has_lit_exec(s, p, "startsWith") {
        Some((Op::StartsWith, p + 10))
    } else {
        None
    }
}

pub fn parse_simple_filter_expr(s: &[char], p: usize) -> (r: Parsed<FilterExpr>)
    requires
        p <= s@.len(),
    ensures
        r matches Parsed::Done(_, q) ==> q <= s@.len(),
        agrees3(r, spec_simple_filter(s@, p as int)),
{
    let (field, e1) = match parse_identifier(s, ws_end_exec(s, p)) {
        Some(x) => x,
        None => {
            return Parsed::NoMatch;
        },
    };
    proof {
        lemma_ws_end(s@, e1 as int);
    }
    let p2 = ws_end_exec(s, ws_end_exec(s, e1));
    let (op, e2) = match parse_op(s, p2) {
        Some(x) => x,
        None => {
            return Parsed::NoMatch;
        },
    };
    proof {
        lemma_ws_end(s@, e2 as int);
    }
    let p3 = ws_end_exec(s, ws_end_exec(s, e2));
    match parse_data_value(s, p3) {
        Parsed::Done(v, e3) => Parsed::Done(
            FilterExpr::Simple { field, operator: op, value: v },
            ws_end_exec(s, e3),
        ),
        Parsed::NoMatch => Parsed::NoMatch,
        Parsed::Stop => Parsed::Stop,
    }
}

pub fn parse_filter_expr(s: &[char], p: usize) -> (r: Parsed<FilterExpr>)
    requires
        p <= s@.len(),
    ensures
        r matches Parsed::Done(_, q) ==> q <= s@.len(),
        agrees3(r, spec_filter_expr(s@, p as int)),
    decreases s@.len() - p, 4int,
{
    let (mut left, mut cur) = match parse_and_expr(s, p) {
        Parsed::Done(l, e) => (l, e),
        Parsed::NoMatch => {
            return Parsed::NoMatch;
        },
        Parsed::Stop => {
            return Parsed::Stop;
        },
    };
    let len = s.len();
    if !(p <= cur && cur <= len) {
        return Parsed::NoMatch;
    }
    loop
        invariant
            len == s@.len(),
            p <= cur <= s@.len(),
            spec_filter_expr(s@, p as int) == spec_or_rest(s@, left@, cur as int),
        decreases s@.len() - cur,
    {
        proof {
            lemma_ws_end(s@, cur as int);
            reveal_strlit("or");
        }
        let q1 = ws_end_exec(s, cur);
        if !has_lit_exec(s, q1, "or") {
            return Parsed::Done(left, cur);
        }
        let q = ws_end_exec(s, q1 + 2);
        let (right, e) = match parse_and_expr(s, q) {
            Parsed::Done(l, e) => (l, e),
            Parsed::NoMatch => {
                return Parsed::NoMatch;
            },
            Parsed::Stop => {
                return Parsed::Stop;
            },
        };
        if !(q <= e && e <= s.len()) {
            return Parsed::NoMatch;
        }
        left = FilterExpr::Or { left: Box::new(left), right: Box::new(right) };
        cur = e;
    }
}

pub fn parse_and_expr(s: &[char], p: usize) -> (r: Parsed<FilterExpr>)
    requires
        p <= s@.len(),
    ensures
        r matches Parsed::Done(_, q) ==> q <= s@.len(),
        agrees3(r, spec_and_expr(s@, p as int)),
    decreases s@.len() - p, 3int,
{
    let (mut left, mut cur) = match parse_primary_expr(s, p) {
        Parsed::Done(l, e) => (l, e),
        Parsed::NoMatch => {
            return Parsed::NoMatch;
        },
        Parsed::Stop => {
            return Parsed::Stop;
        },
    };
    let len = s.len();
    if !(p <= cur && cur <= len) {
        return Parsed::NoMatch;
    }
    loop
        invariant
            len == s@.len(),
            p <= cur <= s@.len(),
            spec_and_expr(s@, p as int) == spec_and_rest(s@, left@, cur as int),
        decreases s@.len() - cur,
    {
        proof {
            lemma_ws_end(s@, cur as int);
            reveal_strlit("and");
        }
        let q1 = ws_end_exec(s, cur);
        if !has_lit_exec(s, q1, "and") {
            return Parsed::Done(left, cur);
        }
        let q = ws_end_exec(s, q1 + 3);
        let (right, e) = match parse_primary_expr(s, q) {
            Parsed::Done(l, e) => (l, e),
            Parsed::NoMatch => {
                return Parsed::NoMatch;
            },
            Parsed::Stop => {
                return Parsed::Stop;
            },
        };
        if !(q <= e && e <= s.len()) {
            return Parsed::NoMatch;
        }
        left = FilterExpr::And { left: Box::new(left), right: Box::new(right) };
        cur = e;
    }
}

pub fn parse_primary_expr(s: &[char], p: usize) -> (r: Parsed<FilterExpr>)
    requires
        p <= s@.len(),
    ensures
        r matches Parsed::Done(_, q) ==> q <= s@.len(),
        agrees3(r, spec_primary(s@, p as int)),
    decreases s@.len() - p, 2int,
{
    let len = s.len();
    if has_char_exec(s, p, '(') {
        proof {
            lemma_ws_end(s@, p + 1);
        }
        let q = ws_end_exec(s, p + 1);
        match parse_filter_expr(s, q) {
            Parsed::Done(x, e) => {
                let e2 = ws_end_exec(s, e);
                if has_char_exec(s, e2, ')') {
                    Parsed::Done(x, e2 + 1)
                } else {
                    parse_simple_filter_expr(s, p)
                }
            },
            Parsed::NoMatch => parse_simple_filter_expr(s, p),
            Parsed::Stop => Parsed::Stop,
        }
    } else {
        parse_simple_filter_expr(s, p)
    }
}


// ------------------------------------------------------------------ stages

/// `(`, whitespace, `)` at `e`, or nothing: the position after it.
pub open spec fn empty_parens_end(s: Seq<char>, e: int) -> int {
    if has_char(s, e, '(') && has_char(s, ws_end(s, e + 1), ')') {
        ws_end(s, e + 1) + 1
    } else {
        e
    }
}

/// `word(` name `)`, the name a string literal or an identifier.
pub open spec fn spec_word_arg(s: Seq<char>, p: int, word: Seq<char>) -> Res<Seq<char>> {
    if !has_lit(s, p, word) || !has_char(s, p + word.len(), '(') {
        Res::NoMatch
    } else {
        match spec_string_or_ident(s, ws_end(s, p + word.len() + 1)) {
            Res::Done(k, e) => if has_char(s, ws_end(s, e), ')') {
                Res::Done(k, ws_end(s, e) + 1)
            } else {
                Res::NoMatch
            },
            _ => Res::NoMatch,
        }
    }
}

/// Whether a character lowercases to the ASCII lowercase letter `x`: itself,
/// its ASCII capital, or (for `k`) the Kelvin sign, the one non-ASCII
/// character whose lowercase form is an ASCII letter.
pub open spec fn lowers_to(c: char, x: char) -> bool {
    c == x || ('A' <= c <= 'Z' && (c as u32) + 32 == (x as u32)) || (x == 'k' && c == '\u{212A}')
}

/// Whether the text lowercases (std `str::to_lowercase`) to the ASCII
/// lowercase word `w`.
pub open spec fn lower_eq(t: Seq<char>, w: Seq<char>) -> bool {
    t.len() == w.len() && forall|i: int| 0 <= i < t.len() ==> lowers_to(#[trigger] t[i], w[i])
}

/// The aggregation strategy that a name denotes, ignoring case.
pub open spec fn strategy_of(t: Seq<char>) -> Option<AggregateStrategy> {
    if lower_eq(t, "count"@) {
        Some(AggregateStrategy::Count)
    } else if lower_eq(t, "sum"@) {
        Some(AggregateStrategy::Sum)
    } else if lower_eq(t, "average"@) || lower_eq(t, "avg"@) {
        Some(AggregateStrategy::Average)
    } else {
        None
    }
}

/// The export format that a name denotes, ignoring case.
pub open spec fn format_of(t: Seq<char>) -> Option<ExportFormat> {
    if lower_eq(t, "jsonl"@) {
        Some(ExportFormat::Jsonl)
    } else if lower_eq(t, "csv"@) {
        Some(ExportFormat::Csv)
    } else if lower_eq(t, "msgpack"@) || lower_eq(t, "messagepack"@) {
        Some(ExportFormat::MsgPack)
    } else {
        None
    }
}

/// The decimal digits `s[a..b]` read as a `usize`, or `default` when they
/// do not fit.
pub open spec fn usize_or(s: Seq<char>, a: int, b: int, default: usize) -> usize {
    if digits_value(s, a, b) <= usize::MAX {
        digits_value(s, a, b) as usize
    } else {
        default
    }
}

/// `sort(field)`, `sort(field, asc)` or `sort(field, desc)`.
pub open spec fn spec_sort_stage(s: Seq<char>, p: int) -> Res<StageV> {
    if !has_lit(s, p, "sort"@) || !has_char(s, p + 4, '(') {
        Res::NoMatch
    } else {
        match spec_identifier(s, ws_end(s, p + 5)) {
            Res::Done(f, e1) => {
                let b1 = ws_end(s, e1);
                let b3 = ws_end(s, ws_end(s, b1 + 1));
                let (desc, e) = if has_char(s, b1, ',') && has_lit(s, b3, "asc"@) {
                    (false, ws_end(s, b3 + 3))
                } else if has_char(s, b1, ',') && has_lit(s, b3, "desc"@) {
                    (true, ws_end(s, b3 + 4))
                } else {
                    (false, e1)
                };
                if has_char(s, ws_end(s, e), ')') {
                    Res::Done(StageV::Sort { field: f, descending: desc }, ws_end(s, e) + 1)
                } else {
                    Res::NoMatch
                }
            },
            _ => Res::NoMatch,
        }
    }
}

/// `page(cursor("after"), size)` or `page(number, size)`.
pub open spec fn spec_page_stage(s: Seq<char>, p: int) -> Res<StageV> {
    if !has_lit(s, p, "page"@) || !has_char(s, p + 4, '(') {
        Res::NoMatch
    } else {
        let q = p + 5;
        let cursor_form: Res<StageV> = if has_lit(s, q, "cursor"@) && has_char(s, q + 6, '(') {
            match spec_string_literal(s, ws_end(s, q + 7)) {
                Res::Done(c, e1) => {
                    let c1 = ws_end(s, e1);
                    let d1 = ws_end(s, ws_end(s, c1 + 1) + 1);
                    let d2 = digits_end(s, d1);
                    if has_char(s, c1, ')') && has_char(s, ws_end(s, c1 + 1), ',') && d2 > d1 {
                        Res::Done(
                            StageV::PageCursor { cursor: c, page_size: usize_or(s, d1, d2, 50) },
                            ws_end(s, d2),
                        )
                    } else {
                        Res::NoMatch
                    }
                },
                _ => Res::NoMatch,
            }
        } else {
            Res::NoMatch
        };
        let inner = match cursor_form {
            Res::Done(v, e) => Res::Done(v, e),
            _ => {
                let a1 = ws_end(s, q);
                let a2 = digits_end(s, a1);
                let a3 = ws_end(s, a2);
                let b1 = ws_end(s, a3 + 1);
                let b2 = digits_end(s, b1);
                if a2 > a1 && has_char(s, a3, ',') && b2 > b1 {
                    Res::Done(
                        StageV::Page {
                            page_number: usize_or(s, a1, a2, 1),
                            page_size: usize_or(s, b1, b2, 50),
                        },
                        ws_end(s, b2),
                    )
                } else {
                    Res::NoMatch
                }
            },
        };
        match inner {
            Res::Done(v, e) => if has_char(s, e, ')') {
                Res::Done(v, e + 1)
            } else {
                Res::NoMatch
            },
            _ => Res::NoMatch,
        }
    }
}

/// An aggregation: `name()` or `name(field)`.
pub open spec fn spec_aggregation(s: Seq<char>, p: int) -> Res<Seq<char>> {
    match spec_identifier(s, p) {
        Res::Done(name, e) => if has_lit(s, e, "()"@) {
            Res::Done(name + "()"@, e + 2)
        } else if has_char(s, e, '(') {
            match spec_identifier(s, e + 1) {
                Res::Done(arg, e2) => if has_char(s, e2, ')') {
                    Res::Done(name + "("@ + arg + ")"@, e2 + 1)
                } else {
                    Res::NoMatch
                },
                _ => Res::NoMatch,
            }
        } else {
            Res::NoMatch
        },
        _ => Res::NoMatch,
    }
}

/// A list of items separated by `,` with whitespace around the separators,
/// each item read by `item`; the list ends before a separator that is not
/// followed by an item.
pub open spec fn spec_list_rest(
    s: Seq<char>,
    p: int,
    item: spec_fn(Seq<char>, int) -> Res<Seq<char>>,
) -> Seq<Seq<char>>
    decreases s.len() - p,
{
    if p < 0 || p > s.len() {
        Seq::empty()
    } else {
        let q1 = ws_end(s, p);
        let q = ws_end(s, q1 + 1);
        proof {
            lemma_ws_end(s, p);
            lemma_ws_end(s, q1 + 1);
        }
        if !has_char(s, q1, ',') {
            Seq::empty()
        } else {
            match item(s, q) {
                Res::Done(v, e) => if q <= e <= s.len() {
                    seq![v] + spec_list_rest(s, e, item)
                } else {
                    Seq::empty()
                },
                _ => Seq::empty(),
            }
        }
    }
}

/// The position where such a list ends.
pub open spec fn spec_list_rest_end(
    s: Seq<char>,
    p: int,
    item: spec_fn(Seq<char>, int) -> Res<Seq<char>>,
) -> int
    decreases s.len() - p,
{
    if p < 0 || p > s.len() {
        p
    } else {
        let q1 = ws_end(s, p);
        let q = ws_end(s, q1 + 1);
        proof {
            lemma_ws_end(s, p);
            lemma_ws_end(s, q1 + 1);
        }
        if !has_char(s, q1, ',') {
            p
        } else {
            match item(s, q) {
                Res::Done(v, e) => if q <= e <= s.len() {
                    spec_list_rest_end(s, e, item)
                } else {
                    p
                },
                _ => p,
            }
        }
    }
}

/// Items separated by `,` (possibly none) starting at `q`: the items and the
/// position after them.
pub open spec fn spec_list(
    s: Seq<char>,
    q: int,
    item: spec_fn(Seq<char>, int) -> Res<Seq<char>>,
) -> (Seq<Seq<char>>, int) {
    match item(s, q) {
        Res::Done(v, e) => if q <= e <= s.len() {
            (seq![v] + spec_list_rest(s, e, item), spec_list_rest_end(s, e, item))
        } else {
            (Seq::empty(), q)
        },
        _ => (Seq::empty(), q),
    }
}

/// The aggregation parser as a list item.
pub open spec fn agg_item() -> spec_fn(Seq<char>, int) -> Res<Seq<char>> {
    |s: Seq<char>, p: int| spec_aggregation(s, p)
}

/// The string-or-identifier parser as a list item.
pub open spec fn name_item() -> spec_fn(Seq<char>, int) -> Res<Seq<char>> {
    |s: Seq<char>, p: int| spec_string_or_ident(s, p)
}

/// `group(field, aggregation, ...)`.
pub open spec fn spec_group_stage(s: Seq<char>, p: int) -> Res<StageV> {
    if !has_lit(s, p, "group"@) || !has_char(s, p + 5, '(') {
        Res::NoMatch
    } else {
        match spec_identifier(s, ws_end(s, p + 6)) {
            Res::Done(f, e1) => {
                let c = ws_end(s, e1);
                if !has_char(s, c, ',') {
                    Res::NoMatch
                } else {
                    let (aggs, e2) = spec_list(s, ws_end(s, c + 1), agg_item());
                    if has_char(s, ws_end(s, e2), ')') {
                        Res::Done(StageV::Group { field: f, aggregations: aggs }, ws_end(s, e2) + 1)
                    } else {
                        Res::NoMatch
                    }
                }
            },
            _ => Res::NoMatch,
        }
    }
}

/// `map(field, ...)`.
pub open spec fn spec_map_stage(s: Seq<char>, p: int) -> Res<StageV> {
    if !has_lit(s, p, "map"@) || !has_char(s, p + 3, '(') {
        Res::NoMatch
    } else {
        let (fields, e) = spec_list(s, ws_end(s, p + 4), name_item());
        if has_char(s, ws_end(s, e), ')') {
            Res::Done(StageV::MapFields { projections: fields }, ws_end(s, e) + 1)
        } else {
            Res::NoMatch
        }
    }
}

/// `window(duration_ms, strategy)`; the engine stops on a duration that does
/// not fit in a `u64`.
pub open spec fn spec_window_stage(s: Seq<char>, p: int) -> Res<StageV> {
    if !has_lit(s, p, "window"@) || !has_char(s, p + 6, '(') {
        Res::NoMatch
    } else {
        let a1 = ws_end(s, p + 7);
        let a2 = digits_end(s, a1);
        let c = ws_end(s, a2);
        if a2 == a1 || !has_char(s, c, ',') {
            Res::NoMatch
        } else {
            match spec_identifier(s, ws_end(s, c + 1)) {
                Res::Done(name, e) => if !has_char(s, ws_end(s, e), ')') {
                    Res::NoMatch
                } else if digits_value(s, a1, a2) > u64::MAX {
                    Res::Abort
                } else {
                    match strategy_of(name) {
                        Some(st) => Res::Done(
                            StageV::Window {
                                duration_ms: digits_value(s, a1, a2) as u64,
                                strategy: st,
                            },
                            ws_end(s, e) + 1,
                        ),
                        None => Res::NoMatch,
                    }
                },
                _ => Res::NoMatch,
            }
        }
    }
}

/// `limit(count)`; the engine stops on a count that does not fit in a `usize`.
pub open spec fn spec_limit_stage(s: Seq<char>, p: int) -> Res<StageV> {
    if !has_lit(s, p, "limit"@) || !has_char(s, p + 5, '(') {
        Res::NoMatch
    } else {
        let a1 = ws_end(s, p + 6);
        let a2 = digits_end(s, a1);
        if a2 == a1 || !has_char(s, ws_end(s, a2), ')') {
            Res::NoMatch
        } else if digits_value(s, a1, a2) > usize::MAX {
            Res::Abort
        } else {
            Res::Done(
                StageV::Limit { count: digits_value(s, a1, a2) as usize },
                ws_end(s, a2) + 1,
            )
        }
    }
}

/// `enrich(stream, join_key)`.
pub open spec fn spec_enrich_stage(s: Seq<char>, p: int) -> Res<StageV> {
    if !has_lit(s, p, "enrich"@) || !has_char(s, p + 6, '(') {
        Res::NoMatch
    } else {
        match spec_string_or_ident(s, ws_end(s, p + 7)) {
            Res::Done(src, e1) => {
                let c = ws_end(s, e1);
                if !has_char(s, c, ',') {
                    Res::NoMatch
                } else {
                    match spec_string_or_ident(s, ws_end(s, c + 1)) {
                        Res::Done(k, e2) => if has_char(s, ws_end(s, e2), ')') {
                            Res::Done(
                                StageV::Enrich { source_stream: src, join_key: k },
                                ws_end(s, e2) + 1,
                            )
                        } else {
                            Res::NoMatch
                        },
                        _ => Res::NoMatch,
                    }
                }
            },
            _ => Res::NoMatch,
        }
    }
}

/// `filter(expression)`.
pub open spec fn spec_filter_stage(s: Seq<char>, p: int) -> Res<StageV> {
    if !has_lit(s, p, "filter"@) || !has_char(s, p + 6, '(') {
        Res::NoMatch
    } else {
        match spec_filter_expr(s, ws_end(s, p + 7)) {
            Res::Done(x, e) => if has_char(s, ws_end(s, e), ')') {
                Res::Done(StageV::Filter { expr: x }, ws_end(s, e) + 1)
            } else {
                Res::NoMatch
            },
            Res::NoMatch => Res::NoMatch,
            Res::Abort => Res::Abort,
        }
    }
}


/// The quantized vector that a value denotes: a vector itself, or an array of
/// numbers each cut to a signed byte (integers wrap; float texts are cut
/// toward zero and clamped).
pub open spec fn spec_to_vector(v: DataValueV) -> Option<Seq<i8>> {
    match v {
        DataValueV::Vector(x) => Some(x),
        DataValueV::Array(items) => if forall|i: int|
            0 <= i < items.len() ==> (#[trigger] items[i] is Int || items[i] is UInt
                || (items[i] is Float && is_decimal_text(items[i]->Float_0))) {
            Some(Seq::new(items.len(), |i: int| item_to_i8(items[i])))
        } else {
            None
        },
        _ => None,
    }
}

/// Whether a text is `-`, digits, `.`, digits, as the grammar writes floats.
pub open spec fn is_decimal_text(t: Seq<char>) -> bool {
    let a = if t.len() > 0 && t[0] == '-' {
        1int
    } else {
        0int
    };
    let d = digits_end(t, a);
    d > a && has_char(t, d, '.') && digits_end(t, d + 1) == t.len() && t.len() > d + 1
}

/// The signed byte a number becomes: integers keep their low eight bits;
/// a decimal text is cut toward zero and clamped to the byte's range.
pub open spec fn item_to_i8(v: DataValueV) -> i8 {
    match v {
        DataValueV::Int(i) => i as i8,
        DataValueV::UInt(u) => u as i8,
        DataValueV::Float(t) => {
            let neg = t.len() > 0 && t[0] == '-';
            let a = if neg {
                1int
            } else {
                0int
            };
            let w = digits_value(t, a, digits_end(t, a));
            if neg {
                if w >= 128 {
                    -128i8
                } else {
                    (0 - w) as i8
                }
            } else if w >= 127 {
                127i8
            } else {
                w as i8
            }
        },
        _ => 0i8,
    }
}

/// The threshold text that a value denotes: a float's text or an integer's
/// decimal text.
pub open spec fn spec_threshold(v: DataValueV) -> Option<Seq<char>> {
    match v {
        DataValueV::Float(t) => Some(t),
        DataValueV::Int(i) => Some(int_text(i as int)),
        DataValueV::UInt(u) => Some(int_text(u as int)),
        _ => None,
    }
}

/// The decimal digits of a natural number.
pub open spec fn nat_text(n: nat) -> Seq<char>
    decreases n,
{
    if n < 10 {
        seq![(('0' as int) + n) as char]
    } else {
        nat_text(n / 10).push((('0' as int) + (n % 10)) as char)
    }
}

/// The decimal text of an integer, with `-` when negative.
pub open spec fn int_text(i: int) -> Seq<char> {
    if i < 0 {
        seq!['-'] + nat_text((0 - i) as nat)
    } else {
        nat_text(i as nat)
    }
}

/// `vector_filter(field, vector, threshold)`.
pub open spec fn spec_vector_filter_stage(s: Seq<char>, p: int) -> Res<StageV> {
    if !has_lit(s, p, "vector_filter"@) || !has_char(s, p + 13, '(') {
        Res::NoMatch
    } else {
        match spec_identifier(s, ws_end(s, p + 14)) {
            Res::Done(f, e1) => {
                let c1 = ws_end(s, e1);
                if !has_char(s, c1, ',') {
                    Res::NoMatch
                } else {
                    match spec_data_value(s, ws_end(s, c1 + 1)) {
                        Res::Done(qv, e2) => {
                            let c2 = ws_end(s, e2);
                            if !has_char(s, c2, ',') {
                                Res::NoMatch
                            } else {
                                match spec_data_value(s, ws_end(s, c2 + 1)) {
                                    Res::Done(tv, e3) => {
                                        let c3 = ws_end(s, e3);
                                        if !has_char(s, c3, ')') {
                                            Res::NoMatch
                                        } else {
                                            match (spec_to_vector(qv), spec_threshold(tv)) {
                                                (Some(vec), Some(th)) => Res::Done(
                                                    StageV::VectorFilter {
                                                        field: f,
                                                        query_vector: vec,
                                                        threshold: th,
                                                    },
                                                    c3 + 1,
                                                ),
                                                _ => Res::NoMatch,
                                            }
                                        }
                                    },
                                    Res::NoMatch => Res::NoMatch,
                                    Res::Abort => Res::Abort,
                                }
                            }
                        },
                        Res::NoMatch => Res::NoMatch,
                        Res::Abort => Res::Abort,
                    }
                }
            },
            _ => Res::NoMatch,
        }
    }
}

/// A stage without arguments: the word, then optionally `()`.
pub open spec fn spec_bare_stage(s: Seq<char>, p: int, word: Seq<char>, st: StageV) -> Res<StageV> {
    if has_lit(s, p, word) {
        Res::Done(st, empty_parens_end(s, p + word.len()))
    } else {
        Res::NoMatch
    }
}

/// The outcomes of the stage forms at `p`, in the order they are tried.
pub open spec fn stage_alts(s: Seq<char>, p: int) -> Seq<Res<StageV>> {
    let from = match spec_word_arg(s, p, "from"@) {
        Res::Done(n, e) => Res::Done(StageV::From { stream_name: n }, e),
        _ => Res::NoMatch,
    };
    let get = match spec_word_arg(s, p, "get"@) {
        Res::Done(n, e) => Res::Done(StageV::Get { key: n }, e),
        _ => Res::NoMatch,
    };
    let export = match spec_word_arg(s, p, "export"@) {
        Res::Done(n, e) => match format_of(n) {
            Some(f) => Res::Done(StageV::Export { format: f }, e),
            None => Res::NoMatch,
        },
        _ => Res::NoMatch,
    };
    let alts: Seq<Res<StageV>> = seq![
        from,
        spec_bare_stage(s, p, "delete"@, StageV::Delete),
        spec_bare_stage(s, p, "trash"@, StageV::Trash),
        spec_filter_stage(s, p),
        spec_vector_filter_stage(s, p),
        spec_map_stage(s, p),
        spec_window_stage(s, p),
        spec_limit_stage(s, p),
        export,
        spec_enrich_stage(s, p),
        get,
        spec_bare_stage(s, p, "count"@, StageV::Count),
        spec_sort_stage(s, p),
        spec_page_stage(s, p),
        spec_group_stage(s, p),
    ];
    alts
}

/// One pipeline stage: the first of the stage forms that reads the text.
#[verifier::opaque]
pub open spec fn spec_stage(s: Seq<char>, p: int) -> Res<StageV> {
    first_match(stage_alts(s, p), 0)
}

/// The first outcome from index `i` on that is not `NoMatch`.
pub open spec fn first_match<V>(alts: Seq<Res<V>>, i: int) -> Res<V>
    decreases alts.len() - i,
{
    if i < 0 || i >= alts.len() {
        Res::NoMatch
    } else {
        match alts[i] {
            Res::NoMatch => first_match(alts, i + 1),
            r => r,
        }
    }
}


// --------------------------------------------------------- stage parsers

pub fn empty_parens_end_exec(s: &[char], e: usize) -> (r: usize)
    requires
        e <= s@.len(),
    ensures
        r == empty_parens_end(s@, e as int),
        e <= r <= s@.len(),
{
    let len = s.len();
    if has_char_exec(s, e, '(') {
        let q = ws_end_exec(s, e + 1);
        if has_char_exec(s, q, ')') {
            return q + 1;
        }
    }
    e
}

/// `word(` name `)`: the name and the position after `)`.
pub fn parse_word_arg(s: &[char], p: usize, word: &str) -> (r: Option<(String, usize)>)
    requires
        p <= s@.len(),
    ensures
        r matches Some((_, q)) ==> q <= s@.len(),
        agrees(r, spec_word_arg(s@, p as int, word@)),
{
    let len = s.len();
    if !has_lit_exec(s, p, word) {
        return None;
    }
    let wl = crate::text::chars_of(word).len();
    if !has_char_exec(s, p + wl, '(') {
        return None;
    }
    let (k, e) = match parse_string_or_ident(s, ws_end_exec(s, p + wl + 1)) {
        Some(x) => x,
        None => {
            return None;
        },
    };
    let c = ws_end_exec(s, e);
    if has_char_exec(s, c, ')') {
        Some((k, c + 1))
    } else {
        None
    }
}

/// Whether the text lowercases to the ASCII lowercase word.
pub fn lower_eq_exec(t: &str, w: &str) -> (r: bool)
    ensures
        r == lower_eq(t@, w@),
{
    let tc = crate::text::chars_of(t);
    let wc = crate::text::chars_of(w);
    if tc.len() != wc.len() {
        return false;
    }
    let mut i: usize = 0;
    while i < tc.len()
        invariant
            i <= tc@.len(),
            tc@ == t@,
            wc@ == w@,
            tc@.len() == wc@.len(),
            forall|j: int| 0 <= j < i ==> lowers_to(#[trigger] t@[j], w@[j]),
        decreases tc.len() - i,
    {
        let c = tc[i];
        let x = wc[i];
        let ok = c == x || ('A' <= c && c <= 'Z' && (c as u32) + 32 == (x as u32)) || (x == 'k' && c
            == '\u{212A}');
        if !ok {
            assert(!lowers_to(t@[i as int], w@[i as int]));
            return false;
        }
        i += 1;
    }
    true
}

pub fn strategy_of_exec(t: &str) -> (r: Option<AggregateStrategy>)
    ensures
        r == strategy_of(t@),
{
    if lower_eq_exec(t, "count") {
        Some(AggregateStrategy::Count)
    } else if lower_eq_exec(t, "sum") {
        Some(AggregateStrategy::Sum)
    } else if lower_eq_exec(t, "average") || lower_eq_exec(t, "avg") {
        Some(AggregateStrategy::Average)
    } else {
        None
    }
}

pub fn format_of_exec(t: &str) -> (r: Option<ExportFormat>)
    ensures
        r == format_of(t@),
{
    if lower_eq_exec(t, "jsonl") {
        Some(ExportFormat::Jsonl)
    } else if lower_eq_exec(t, "csv") {
        Some(ExportFormat::Csv)
    } else if lower_eq_exec(t, "msgpack") || lower_eq_exec(t, "messagepack") {
        Some(ExportFormat::MsgPack)
    } else {
        None
    }
}

pub fn usize_or_exec(s: &[char], a: usize, b: usize, default: usize) -> (r: usize)
    requires
        a <= b <= s@.len(),
        forall|i: int| a <= i < b ==> is_digit(#[trigger] s@[i]),
    ensures
        r == usize_or(s@, a as int, b as int, default),
{
    match digits_value_exec(s, a, b) {
        Some(v) => if v <= usize::MAX as u64 {
            v as usize
        } else {
            default
        },
        None => default,
    }
}

pub fn parse_sort_stage(s: &[char], p: usize) -> (r: Option<(PipelineStage, usize)>)
    requires
        p <= s@.len(),
    ensures
        r matches Some((_, q)) ==> q <= s@.len(),
        agrees(r, spec_sort_stage(s@, p as int)),
{
    let len = s.len();
    proof {
        reveal_strlit("sort");
        reveal_strlit("asc");
        reveal_strlit("desc");
    }
    if !has_lit_exec(s, p, "sort") || !has_char_exec(s, p + 4, '(') {
        return None;
    }
    let (f, e1) = match parse_identifier(s, ws_end_exec(s, p + 5)) {
        Some(x) => x,
        None => {
            return None;
        },
    };
    let b1 = ws_end_exec(s, e1);
    let mut desc = false;
    let mut e = e1;
    if has_char_exec(s, b1, ',') {
        let b3 = ws_end_exec(s, ws_end_exec(s, b1 + 1));
        if has_lit_exec(s, b3, "asc") {
            e = ws_end_exec(s, b3 + 3);
        } else if has_lit_exec(s, b3, "desc") {
            desc = true;
            e = ws_end_exec(s, b3 + 4);
        }
    }
    let c = ws_end_exec(s, e);
    if has_char_exec(s, c, ')') {
        Some((PipelineStage::Sort { field: f, descending: desc }, c + 1))
    } else {
        None
    }
}

pub fn parse_page_stage(s: &[char], p: usize) -> (r: Option<(PipelineStage, usize)>)
    requires
        p <= s@.len(),
    ensures
        r matches Some((_, q)) ==> q <= s@.len(),
        agrees(r, spec_page_stage(s@, p as int)),
{
    let len = s.len();
    proof {
        reveal_strlit("page");
        reveal_strlit("cursor");
    }
    if !has_lit_exec(s, p, "page") || !has_char_exec(s, p + 4, '(') {
        return None;
    }
    let q = p + 5;
    let mut inner: Option<(PipelineStage, usize)> = None;
    if has_lit_exec(s, q, "cursor") && has_char_exec(s, q + 6, '(') {
        if let Some((c, e1)) = parse_string_literal(s, ws_end_exec(s, q + 7)) {
            let c1 = ws_end_exec(s, e1);
            if has_char_exec(s, c1, ')') {
                let c2 = ws_end_exec(s, c1 + 1);
                if has_char_exec(s, c2, ',') {
                    let d1 = ws_end_exec(s, c2 + 1);
                    let d2 = digits_end_exec(s, d1);
                    if d2 > d1 {
                        let size = usize_or_exec(s, d1, d2, 50);
                        inner = Some((PipelineStage::PageCursor { cursor: c, page_size: size }, ws_end_exec(s, d2)));
                    }
                }
            }
        }
    }
    if inner.is_none() {
        let a1 = ws_end_exec(s, q);
        let a2 = digits_end_exec(s, a1);
        let a3 = ws_end_exec(s, a2);
        if a2 > a1 && has_char_exec(s, a3, ',') {
            let b1 = ws_end_exec(s, a3 + 1);
            let b2 = digits_end_exec(s, b1);
            if b2 > b1 {
                let number = usize_or_exec(s, a1, a2, 1);
                let size = usize_or_exec(s, b1, b2, 50);
                inner = Some((PipelineStage::Page { page_number: number, page_size: size }, ws_end_exec(s, b2)));
            }
        }
    }
    match inner {
        Some((v, e)) => if has_char_exec(s, e, ')') {
            Some((v, e + 1))
        } else {
            None
        },
        None => None,
    }
}


pub fn parse_aggregation(s: &[char], p: usize) -> (r: Option<(String, usize)>)
    requires
        p <= s@.len(),
    ensures
        r matches Some((_, q)) ==> q <= s@.len(),
        agrees(r, spec_aggregation(s@, p as int)),
{
    let len = s.len();
    proof {
        reveal_strlit("()");
        reveal_strlit("(");
        reveal_strlit(")");
    }
    let (name, e) = match parse_identifier(s, p) {
        Some(x) => x,
        None => {
            return None;
        },
    };
    if has_lit_exec(s, e, "()") {
        let mut out = name;
        out.append("()");
        return Some((out, e + 2));
    }
    if !has_char_exec(s, e, '(') {
        return None;
    }
    let (arg, e2) = match parse_identifier(s, e + 1) {
        Some(x) => x,
        None => {
            return None;
        },
    };
    if !has_char_exec(s, e2, ')') {
        return None;
    }
    let mut out = name;
    out.append("(");
    out.append(arg.as_str());
    out.append(")");
    proof {
        assert(out@ == name@ + "("@ + arg@ + ")"@);
    }
    Some((out, e2 + 1))
}

/// Aggregations separated by `,`, starting at `q`.
pub fn parse_agg_list(s: &[char], q: usize) -> (r: (Vec<String>, usize))
    requires
        q <= s@.len(),
    ensures
        (strings_view(r.0@), r.1 as int) == spec_list(s@, q as int, agg_item()),
        r.1 <= s@.len(),
{
    let len = s.len();
    let mut out: Vec<String> = Vec::new();
    let (v, e) = match parse_aggregation(s, q) {
        Some(x) => x,
        None => {
            assert(strings_view(out@) =~= Seq::<Seq<char>>::empty());
            return (out, q);
        },
    };
    assert(agg_item()(s@, q as int) == spec_aggregation(s@, q as int));
    if e < q {
        assert(strings_view(out@) =~= Seq::<Seq<char>>::empty());
        return (out, q);
    }
    let ghost v0 = v@;
    out.push(v);
    let mut cur = e;
    assert(strings_view(out@) =~= seq![v0]);
    loop
        invariant
            q <= cur <= s@.len(),
            len == s@.len(),
            spec_list(s@, q as int, agg_item()) == (
                strings_view(out@) + spec_list_rest(s@, cur as int, agg_item()),
                spec_list_rest_end(s@, cur as int, agg_item()),
            ),
        decreases s@.len() - cur,
    {
        proof {
            lemma_ws_end(s@, cur as int);
        }
        let q1 = ws_end_exec(s, cur);
        if !has_char_exec(s, q1, ',') {
            assert(strings_view(out@) + Seq::<Seq<char>>::empty() =~= strings_view(out@));
            return (out, cur);
        }
        proof {
            lemma_ws_end(s@, q1 + 1);
        }
        let qn = ws_end_exec(s, q1 + 1);
        assert(agg_item()(s@, qn as int) == spec_aggregation(s@, qn as int));
        match parse_aggregation(s, qn) {
            None => {
                assert(strings_view(out@) + Seq::<Seq<char>>::empty() =~= strings_view(out@));
                return (out, cur);
            },
            Some((v, e)) => {
                if e < qn {
                    assert(strings_view(out@) + Seq::<Seq<char>>::empty() =~= strings_view(out@));
                    return (out, cur);
                }
                let ghost old_out = out@;
                out.push(v);
                proof {
                    assert(strings_view(out@) =~= strings_view(old_out) + seq![v@]);
                    assert(strings_view(out@) + spec_list_rest(s@, e as int, agg_item()) =~= strings_view(
                        old_out,
                    ) + (seq![v@] + spec_list_rest(s@, e as int, agg_item())));
                }
                cur = e;
            },
        }
    }
}

/// Names (string literals or identifiers) separated by `,`, starting at `q`.
pub fn parse_name_list(s: &[char], q: usize) -> (r: (Vec<String>, usize))
    requires
        q <= s@.len(),
    ensures
        (strings_view(r.0@), r.1 as int) == spec_list(s@, q as int, name_item()),
        r.1 <= s@.len(),
{
    let len = s.len();
    let mut out: Vec<String> = Vec::new();
    let (v, e) = match parse_string_or_ident(s, q) {
        Some(x) => x,
        None => {
            assert(strings_view(out@) =~= Seq::<Seq<char>>::empty());
            return (out, q);
        },
    };
    assert(name_item()(s@, q as int) == spec_string_or_ident(s@, q as int));
    if e < q {
        assert(strings_view(out@) =~= Seq::<Seq<char>>::empty());
        return (out, q);
    }
    let ghost v0 = v@;
    out.push(v);
    let mut cur = e;
    assert(strings_view(out@) =~= seq![v0]);
    loop
        invariant
            q <= cur <= s@.len(),
            len == s@.len(),
            spec_list(s@, q as int, name_item()) == (
                strings_view(out@) + spec_list_rest(s@, cur as int, name_item()),
                spec_list_rest_end(s@, cur as int, name_item()),
            ),
        decreases s@.len() - cur,
    {
        proof {
            lemma_ws_end(s@, cur as int);
        }
        let q1 = ws_end_exec(s, cur);
        if !has_char_exec(s, q1, ',') {
            assert(strings_view(out@) + Seq::<Seq<char>>::empty() =~= strings_view(out@));
            return (out, cur);
        }
        proof {
            lemma_ws_end(s@, q1 + 1);
        }
        let qn = ws_end_exec(s, q1 + 1);
        assert(name_item()(s@, qn as int) == spec_string_or_ident(s@, qn as int));
        match parse_string_or_ident(s, qn) {
            None => {
                assert(strings_view(out@) + Seq::<Seq<char>>::empty() =~= strings_view(out@));
                return (out, cur);
            },
            Some((v, e)) => {
                if e < qn {
                    assert(strings_view(out@) + Seq::<Seq<char>>::empty() =~= strings_view(out@));
                    return (out, cur);
                }
                let ghost old_out = out@;
                out.push(v);
                proof {
                    assert(strings_view(out@) =~= strings_view(old_out) + seq![v@]);
                    assert(strings_view(out@) + spec_list_rest(s@, e as int, name_item()) =~= strings_view(
                        old_out,
                    ) + (seq![v@] + spec_list_rest(s@, e as int, name_item())));
                }
                cur = e;
            },
        }
    }
}

pub fn parse_group_stage(s: &[char], p: usize) -> (r: Option<(PipelineStage, usize)>)
    requires
        p <= s@.len(),
    ensures
        r matches Some((_, q)) ==> q <= s@.len(),
        agrees(r, spec_group_stage(s@, p as int)),
{
    let len = s.len();
    proof {
        reveal_strlit("group");
    }
    if !has_lit_exec(s, p, "group") || !has_char_exec(s, p + 5, '(') {
        return None;
    }
    let (f, e1) = match parse_identifier(s, ws_end_exec(s, p + 6)) {
        Some(x) => x,
        None => {
            return None;
        },
    };
    let c = ws_end_exec(s, e1);
    if !has_char_exec(s, c, ',') {
        return None;
    }
    let (aggs, e2) = parse_agg_list(s, ws_end_exec(s, c + 1));
    let c2 = ws_end_exec(s, e2);
    if has_char_exec(s, c2, ')') {
        Some((PipelineStage::Group { field: f, aggregations: aggs }, c2 + 1))
    } else {
        None
    }
}

pub fn parse_map_stage(s: &[char], p: usize) -> (r: Option<(PipelineStage, usize)>)
    requires
        p <= s@.len(),
    ensures
        r matches Some((_, q)) ==> q <= s@.len(),
        agrees(r, spec_map_stage(s@, p as int)),
{
    let len = s.len();
    proof {
        reveal_strlit("map");
    }
    if !has_lit_exec(s, p, "map") || !has_char_exec(s, p + 3, '(') {
        return None;
    }
    let (fields, e) = parse_name_list(s, ws_end_exec(s, p + 4));
    let c = ws_end_exec(s, e);
    if has_char_exec(s, c, ')') {
        Some((PipelineStage::MapFields { projections: fields }, c + 1))
    } else {
        None
    }
}


pub fn parse_window_stage(s: &[char], p: usize) -> (r: Parsed<PipelineStage>)
    requires
        p <= s@.len(),
    ensures
        r matches Parsed::Done(_, q) ==> q <= s@.len(),
        agrees3(r, spec_window_stage(s@, p as int)),
{
    let len = s.len();
    proof {
        reveal_strlit("window");
    }
    if !has_lit_exec(s, p, "window") || !has_char_exec(s, p + 6, '(') {
        return Parsed::NoMatch;
    }
    let a1 = ws_end_exec(s, p + 7);
    let a2 = digits_end_exec(s, a1);
    let c = ws_end_exec(s, a2);
    if a2 == a1 || !has_char_exec(s, c, ',') {
        return Parsed::NoMatch;
    }
    let (name, e) = match parse_identifier(s, ws_end_exec(s, c + 1)) {
        Some(x) => x,
        None => {
            return Parsed::NoMatch;
        },
    };
    let c2 = ws_end_exec(s, e);
    if !has_char_exec(s, c2, ')') {
        return Parsed::NoMatch;
    }
    let d = match digits_value_exec(s, a1, a2) {
        Some(d) => d,
        None => {
            return Parsed::Stop;
        },
    };
    match strategy_of_exec(name.as_str()) {
        Some(st) => Parsed::Done(PipelineStage::Window { duration_ms: d, strategy: st }, c2 + 1),
        None => Parsed::NoMatch,
    }
}

pub fn parse_limit_stage(s: &[char], p: usize) -> (r: Parsed<PipelineStage>)
    requires
        p <= s@.len(),
    ensures
        r matches Parsed::Done(_, q) ==> q <= s@.len(),
        agrees3(r, spec_limit_stage(s@, p as int)),
{
    let len = s.len();
    proof {
        reveal_strlit("limit");
    }
    if !has_lit_exec(s, p, "limit") || !has_char_exec(s, p + 5, '(') {
        return Parsed::NoMatch;
    }
    let a1 = ws_end_exec(s, p + 6);
    let a2 = digits_end_exec(s, a1);
    let c = ws_end_exec(s, a2);
    if a2 == a1 || !has_char_exec(s, c, ')') {
        return Parsed::NoMatch;
    }
    match digits_value_exec(s, a1, a2) {
        Some(d) => if d <= usize::MAX as u64 {
            Parsed::Done(PipelineStage::Limit { count: d as usize }, c + 1)
        } else {
            Parsed::Stop
        },
        None => Parsed::Stop,
    }
}

pub fn parse_enrich_stage(s: &[char], p: usize) -> (r: Option<(PipelineStage, usize)>)
    requires
        p <= s@.len(),
    ensures
        r matches Some((_, q)) ==> q <= s@.len(),
        agrees(r, spec_enrich_stage(s@, p as int)),
{
    let len = s.len();
    proof {
        reveal_strlit("enrich");
    }
    if !has_lit_exec(s, p, "enrich") || !has_char_exec(s, p + 6, '(') {
        return None;
    }
    let (src, e1) = match parse_string_or_ident(s, ws_end_exec(s, p + 7)) {
        Some(x) => x,
        None => {
            return None;
        },
    };
    let c = ws_end_exec(s, e1);
    if !has_char_exec(s, c, ',') {
        return None;
    }
    let (k, e2) = match parse_string_or_ident(s, ws_end_exec(s, c + 1)) {
        Some(x) => x,
        None => {
            return None;
        },
    };
    let c2 = ws_end_exec(s, e2);
    if has_char_exec(s, c2, ')') {
        Some((PipelineStage::Enrich { source_stream: src, join_key: k }, c2 + 1))
    } else {
        None
    }
}

pub fn parse_filter_stage(s: &[char], p: usize) -> (r: Parsed<PipelineStage>)
    requires
        p <= s@.len(),
    ensures
        r matches Parsed::Done(_, q) ==> q <= s@.len(),
        agrees3(r, spec_filter_stage(s@, p as int)),
{
    let len = s.len();
    proof {
        reveal_strlit("filter");
    }
    if !has_lit_exec(s, p, "filter") || !has_char_exec(s, p + 6, '(') {
        return Parsed::NoMatch;
    }
    match parse_filter_expr(s, ws_end_exec(s, p + 7)) {
        Parsed::Done(x, e) => {
            let c = ws_end_exec(s, e);
            if has_char_exec(s, c, ')') {
                Parsed::Done(PipelineStage::Filter { expr: x }, c + 1)
            } else {
                Parsed::NoMatch
            }
        },
        Parsed::NoMatch => Parsed::NoMatch,
        Parsed::Stop => Parsed::Stop,
    }
}


/// Whether a text is a decimal as the grammar writes floats.
pub fn is_decimal_text_exec(t: &str) -> (r: bool)
    ensures
        r == is_decimal_text(t@),
{
    let tc = crate::text::chars_of(t);
    let len = tc.len();
    let a: usize = if len > 0 && tc[0] == '-' {
        1
    } else {
        0
    };
    let d = digits_end_exec(tc.as_slice(), a);
    if !(d > a && has_char_exec(tc.as_slice(), d, '.')) {
        return false;
    }
    let e = digits_end_exec(tc.as_slice(), d + 1);
    e == len && len > d + 1
}

/// The signed byte that a number becomes in a quantized vector.
pub fn item_to_i8_exec(v: &DataValue) -> (r: i8)
    ensures
        r == item_to_i8(v@),
{
    match v {
        DataValue::Int(i) => *i as i8,
        DataValue::UInt(u) => *u as i8,
        DataValue::Float(t) => {
            let tc = crate::text::chars_of(t.as_str());
            let len = tc.len();
            let neg = len > 0 && tc[0] == '-';
            let a: usize = if neg {
                1
            } else {
                0
            };
            let de = digits_end_exec(tc.as_slice(), a);
            let mut w: u64 = 0;
            let mut i = a;
            while i < de && w < 128
                invariant
                    a <= i <= de <= tc@.len(),
                    forall|k: int| a <= k < de ==> is_digit(#[trigger] tc@[k]),
                    w == digits_value(tc@, a as int, i as int),
                    w <= 1279,
                decreases de - i,
            {
                let d = (tc[i] as u32 - 48) as u64;
                w = w * 10 + d;
                i += 1;
            }
            proof {
                lemma_digits_value_mono(tc@, a as int, i as int, de as int);
                assert(tc@ == t@);
            }
            if neg {
                if w >= 128 {
                    -128i8
                } else {
                    0i8 - (w as i8)
                }
            } else if w >= 127 {
                127i8
            } else {
                w as i8
            }
        },
        _ => 0i8,
    }
}

/// The quantized vector that a value denotes (see [`spec_to_vector`]).
pub fn to_vector(val: &DataValue) -> (r: Option<Vec<i8>>)
    ensures
        match spec_to_vector(val@) {
            Some(x) => (r matches Some(v) && v@ == x),
            None => r is None,
        },
{
    match val {
        DataValue::Vector(v) => {
            let mut out: Vec<i8> = Vec::new();
            let mut i: usize = 0;
            while i < v.len()
                invariant
                    i <= v@.len(),
                    out@ == v@.take(i as int),
                decreases v.len() - i,
            {
                out.push(v[i]);
                i += 1;
                assert(out@ =~= v@.take(i as int));
            }
            assert(v@.take(v@.len() as int) =~= v@);
            Some(out)
        },
        DataValue::Array(items) => {
            let ghost iv = data_values_view(items@);
            proof {
                crate::types::lemma_data_values_view_index(items@);
                assert(val@ == DataValueV::Array(iv));
            }
            let mut out: Vec<i8> = Vec::new();
            let mut i: usize = 0;
            while i < items.len()
                invariant
                    i <= items@.len(),
                    val@ == DataValueV::Array(iv),
                    iv == data_values_view(items@),
                    iv.len() == items@.len(),
                    forall|k: int| 0 <= k < items@.len() ==> #[trigger] iv[k] == items@[k]@,
                    out@.len() == i,
                    forall|k: int| 0 <= k < i ==> #[trigger] out@[k] == item_to_i8(iv[k]),
                    forall|k: int|
                        0 <= k < i ==> (#[trigger] iv[k] is Int || iv[k] is UInt || (iv[k] is Float
                            && is_decimal_text(iv[k]->Float_0))),
                decreases items.len() - i,
            {
                let ok = match &items[i] {
                    DataValue::Int(_) => true,
                    DataValue::UInt(_) => true,
                    DataValue::Float(t) => is_decimal_text_exec(t.as_str()),
                    _ => false,
                };
                if !ok {
                    assert(!(iv[i as int] is Int || iv[i as int] is UInt || (iv[i as int] is Float
                        && is_decimal_text(iv[i as int]->Float_0))));
                    assert(val@ == DataValueV::Array(iv));
                    return None;
                }
                out.push(item_to_i8_exec(&items[i]));
                i += 1;
            }
            proof {
                assert(val@ == DataValueV::Array(iv));
                assert(out@ =~= Seq::new(iv.len(), |k: int| item_to_i8(iv[k])));
            }
            Some(out)
        },
        _ => None,
    }
}


/// The decimal digits of a natural number.
pub fn nat_text_exec(n: u64) -> (r: String)
    ensures
        r@ == nat_text(n as nat),
    decreases n,
{
    let d = (n % 10) as u8;
    let c = (48u8 + d) as char;
    assert(c == (('0' as int) + (n % 10)) as char);
    if n < 10 {
        let mut s = String::new();
        string_push(&mut s, c);
        assert(s@ =~= seq![c]);
        s
    } else {
        let mut s = nat_text_exec(n / 10);
        string_push(&mut s, c);
        s
    }
}

/// The decimal text of an integer.
pub fn int_text_exec(i: i64) -> (r: String)
    ensures
        r@ == int_text(i as int),
{
    if i < 0 {
        let m: u64 = if i == i64::MIN {
            0x8000_0000_0000_0000
        } else {
            (0 - i) as u64
        };
        let mut s = String::new();
        string_push(&mut s, '-');
        let t = nat_text_exec(m);
        s.append(t.as_str());
        assert(s@ =~= seq!['-'] + nat_text((0 - i) as nat));
        s
    } else {
        nat_text_exec(i as u64)
    }
}

/// The threshold text of a value (see [`spec_threshold`]).
pub fn threshold_of(v: &DataValue) -> (r: Option<String>)
    ensures
        match spec_threshold(v@) {
            Some(t) => (r matches Some(x) && x@ == t),
            None => r is None,
        },
{
    match v {
        DataValue::Float(t) => Some(t.clone()),
        DataValue::Int(i) => Some(int_text_exec(*i)),
        DataValue::UInt(u) => Some(nat_text_exec(*u)),
        _ => None,
    }
}

pub fn parse_vector_filter_stage(s: &[char], p: usize) -> (r: Parsed<PipelineStage>)
    requires
        p <= s@.len(),
    ensures
        r matches Parsed::Done(_, q) ==> q <= s@.len(),
        agrees3(r, spec_vector_filter_stage(s@, p as int)),
{
    let len = s.len();
    proof {
        reveal_strlit("vector_filter");
    }
    if !has_lit_exec(s, p, "vector_filter") || !has_char_exec(s, p + 13, '(') {
        return Parsed::NoMatch;
    }
    let (f, e1) = match parse_identifier(s, ws_end_exec(s, p + 14)) {
        Some(x) => x,
        None => {
            return Parsed::NoMatch;
        },
    };
    let c1 = ws_end_exec(s, e1);
    if !has_char_exec(s, c1, ',') {
        return Parsed::NoMatch;
    }
    let (qv, e2) = match parse_data_value(s, ws_end_exec(s, c1 + 1)) {
        Parsed::Done(v, e) => (v, e),
        Parsed::NoMatch => {
            return Parsed::NoMatch;
        },
        Parsed::Stop => {
            return Parsed::Stop;
        },
    };
    let c2 = ws_end_exec(s, e2);
    if !has_char_exec(s, c2, ',') {
        return Parsed::NoMatch;
    }
    let (tv, e3) = match parse_data_value(s, ws_end_exec(s, c2 + 1)) {
        Parsed::Done(v, e) => (v, e),
        Parsed::NoMatch => {
            return Parsed::NoMatch;
        },
        Parsed::Stop => {
            return Parsed::Stop;
        },
    };
    let c3 = ws_end_exec(s, e3);
    if !has_char_exec(s, c3, ')') {
        return Parsed::NoMatch;
    }
    match (to_vector(&qv), threshold_of(&tv)) {
        (Some(vec), Some(th)) => Parsed::Done(
            PipelineStage::VectorFilter { field: f, query_vector: vec, threshold: th },
            c3 + 1,
        ),
        _ => Parsed::NoMatch,
    }
}

pub fn parse_bare_stage(s: &[char], p: usize, word: &str, st: PipelineStage) -> (r: Option<(PipelineStage, usize)>)
    requires
        p <= s@.len(),
    ensures
        r matches Some((_, q)) ==> q <= s@.len(),
        agrees(r, spec_bare_stage(s@, p as int, word@, st@)),
{
    let len = s.len();
    if has_lit_exec(s, p, word) {
        let wl = crate::text::chars_of(word).len();
        Some((st, empty_parens_end_exec(s, p + wl)))
    } else {
        None
    }
}


/// Each step of [`first_match`].
proof fn lemma_first_match_step<V>(alts: Seq<Res<V>>, k: int)
    requires
        0 <= k < alts.len(),
    ensures
        first_match(alts, k) == (if alts[k] is NoMatch {
            first_match(alts, k + 1)
        } else {
            alts[k]
        }),
{
}

fn is_no_match<T>(r: &Parsed<T>) -> (b: bool)
    ensures
        b == (*r is NoMatch),
{
    match r {
        Parsed::NoMatch => true,
        _ => false,
    }
}

/// Reads one pipeline stage at `p` (see [`spec_stage`]).
pub fn parse_stage(s: &[char], p: usize) -> (r: Parsed<PipelineStage>)
    requires
        p <= s@.len(),
    ensures
        r matches Parsed::Done(_, q) ==> q <= s@.len(),
        agrees3(r, spec_stage(s@, p as int)),
{
    let ghost alts = stage_alts(s@, p as int);
    proof {
        reveal(spec_stage);
        reveal_strlit("from");
        reveal_strlit("get");
        reveal_strlit("export");
        reveal_strlit("delete");
        reveal_strlit("trash");
        reveal_strlit("count");
        assert(alts.len() == 15);
    }
    // form 0
    let r0: Parsed<PipelineStage> = match parse_word_arg(s, p, "from") {
        Some((n, e)) => Parsed::Done(PipelineStage::From { stream_name: n }, e),
        None => Parsed::NoMatch,
    };
    proof {
        lemma_first_match_step(alts, 0);
    }
    assert(agrees3(r0, alts[0]));
    if !is_no_match(&r0) {
        return r0;
    }
    // form 1
    let r1: Parsed<PipelineStage> = match parse_bare_stage(s, p, "delete", PipelineStage::Delete) {
        Some((v, e)) => Parsed::Done(v, e),
        None => Parsed::NoMatch,
    };
    proof {
        lemma_first_match_step(alts, 1);
    }
    assert(agrees3(r1, alts[1]));
    if !is_no_match(&r1) {
        return r1;
    }
    // form 2
    let r2: Parsed<PipelineStage> = match parse_bare_stage(s, p, "trash", PipelineStage::Trash) {
        Some((v, e)) => Parsed::Done(v, e),
        None => Parsed::NoMatch,
    };
    proof {
        lemma_first_match_step(alts, 2);
    }
    assert(agrees3(r2, alts[2]));
    if !is_no_match(&r2) {
        return r2;
    }
    // form 3
    let r3 = parse_filter_stage(s, p);
    proof {
        lemma_first_match_step(alts, 3);
    }
    assert(agrees3(r3, alts[3]));
    if !is_no_match(&r3) {
        return r3;
    }
    // form 4
    let r4 = parse_vector_filter_stage(s, p);
    proof {
        lemma_first_match_step(alts, 4);
    }
    assert(agrees3(r4, alts[4]));
    if !is_no_match(&r4) {
        return r4;
    }
    // form 5
    let r5: Parsed<PipelineStage> = match parse_map_stage(s, p) {
        Some((v, e)) => Parsed::Done(v, e),
        None => Parsed::NoMatch,
    };
    proof {
        lemma_first_match_step(alts, 5);
    }
    assert(agrees3(r5, alts[5]));
    if !is_no_match(&r5) {
        return r5;
    }
    // form 6
    let r6 = parse_window_stage(s, p);
    proof {
        lemma_first_match_step(alts, 6);
    }
    assert(agrees3(r6, alts[6]));
    if !is_no_match(&r6) {
        return r6;
    }
    // form 7
    let r7 = parse_limit_stage(s, p);
    proof {
        lemma_first_match_step(alts, 7);
    }
    assert(agrees3(r7, alts[7]));
    if !is_no_match(&r7) {
        return r7;
    }
    // form 8
    let r8: Parsed<PipelineStage> = match parse_word_arg(s, p, "export") {
        Some((n, e)) => match format_of_exec(n.as_str()) {
            Some(f) => Parsed::Done(PipelineStage::Export { format: f }, e),
            None => Parsed::NoMatch,
        },
        None => Parsed::NoMatch,
    };
    proof {
        lemma_first_match_step(alts, 8);
    }
    assert(agrees3(r8, alts[8]));
    if !is_no_match(&r8) {
        return r8;
    }
    // form 9
    let r9: Parsed<PipelineStage> = match parse_enrich_stage(s, p) {
        Some((v, e)) => Parsed::Done(v, e),
        None => Parsed::NoMatch,
    };
    proof {
        lemma_first_match_step(alts, 9);
    }
    assert(agrees3(r9, alts[9]));
    if !is_no_match(&r9) {
        return r9;
    }
    // form 10
    let r10: Parsed<PipelineStage> = match parse_word_arg(s, p, "get") {
        Some((n, e)) => Parsed::Done(PipelineStage::Get { key: n }, e),
        None => Parsed::NoMatch,
    };
    proof {
        lemma_first_match_step(alts, 10);
    }
    assert(agrees3(r10, alts[10]));
    if !is_no_match(&r10) {
        return r10;
    }
    // form 11
    let r11: Parsed<PipelineStage> = match parse_bare_stage(s, p, "count", PipelineStage::Count) {
        Some((v, e)) => Parsed::Done(v, e),
        None => Parsed::NoMatch,
    };
    proof {
        lemma_first_match_step(alts, 11);
    }
    assert(agrees3(r11, alts[11]));
    if !is_no_match(&r11) {
        return r11;
    }
    // form 12
    let r12: Parsed<PipelineStage> = match parse_sort_stage(s, p) {
        Some((v, e)) => Parsed::Done(v, e),
        None => Parsed::NoMatch,
    };
    proof {
        lemma_first_match_step(alts, 12);
    }
    assert(agrees3(r12, alts[12]));
    if !is_no_match(&r12) {
        return r12;
    }
    // form 13
    let r13: Parsed<PipelineStage> = match parse_page_stage(s, p) {
        Some((v, e)) => Parsed::Done(v, e),
        None => Parsed::NoMatch,
    };
    proof {
        lemma_first_match_step(alts, 13);
    }
    assert(agrees3(r13, alts[13]));
    if !is_no_match(&r13) {
        return r13;
    }
    // form 14
    let r14: Parsed<PipelineStage> = match parse_group_stage(s, p) {
        Some((v, e)) => Parsed::Done(v, e),
        None => Parsed::NoMatch,
    };
    proof {
        lemma_first_match_step(alts, 14);
    }
    assert(agrees3(r14, alts[14]));
    if !is_no_match(&r14) {
        return r14;
    }
    proof {
        assert(first_match(alts, 15) is NoMatch);
    }
    Parsed::NoMatch
}


// ---------------------------------------------------------------- pipelines

/// The outcome of reading a whole pipeline: its stages, a refusal with its
/// message, or an input on which the engine stops.
pub enum PipelineOutcome {
    Stages(Vec<PipelineStage>),
    Refused(String),
    Stops,
}

/// The mathematical model of a [`PipelineOutcome`].
pub enum PipeV {
    Stages(Seq<StageV>),
    Refused(Seq<char>),
    Stops,
}

impl View for PipelineOutcome {
    type V = PipeV;

    open spec fn view(&self) -> PipeV {
        match self {
            PipelineOutcome::Stages(v) => PipeV::Stages(crate::types::stages_view(v@)),
            PipelineOutcome::Refused(m) => PipeV::Refused(m@),
            PipelineOutcome::Stops => PipeV::Stops,
        }
    }
}

/// The first `|` at or after `i`, or the end of the text.
pub open spec fn next_bar(t: Seq<char>, i: int) -> int
    decreases t.len() - i,
{
    if i < 0 || i >= t.len() {
        t.len() as int
    } else if t[i] == '|' {
        i
    } else {
        next_bar(t, i + 1)
    }
}

pub proof fn lemma_next_bar(t: Seq<char>, i: int)
    requires
        0 <= i <= t.len(),
    ensures
        i <= next_bar(t, i) <= t.len(),
        next_bar(t, i) < t.len() ==> t[next_bar(t, i)] == '|',
    decreases t.len() - i,
{
    if i < t.len() && t[i] != '|' {
        lemma_next_bar(t, i + 1);
    }
}

/// Where and why the last stage form (`group`) stops reading a stage that no
/// form reads: the position and the name of the failing step.
pub open spec fn group_error(s: Seq<char>) -> (int, Seq<char>) {
    if !has_lit(s, 0, "group"@) {
        (0, "Tag"@)
    } else if !has_char(s, 5, '(') {
        (5, "Char"@)
    } else {
        match spec_identifier(s, ws_end(s, 6)) {
            Res::Done(f, e1) => {
                let c = ws_end(s, e1);
                if !has_char(s, c, ',') {
                    (c, "Char"@)
                } else {
                    (ws_end(s, spec_list(s, ws_end(s, c + 1), agg_item()).1), "Char"@)
                }
            },
            _ => (ws_end(s, 6), "TakeWhile1"@),
        }
    }
}

/// The message for a stage that no form reads.
pub open spec fn parse_error_text(part: Seq<char>) -> Seq<char> {
    let (pos, kind) = group_error(part);
    "Parse error in stage '"@ + part + "': Error(Error { input: "@ + crate::text::debug_text(
        part.subrange(pos, part.len() as int),
    ) + ", code: "@ + kind + " })"@
}

/// The message for text left over after a stage.
pub open spec fn trailing_text(rem: Seq<char>, part: Seq<char>) -> Seq<char> {
    "Unexpected trailing characters '"@ + rem + "' in stage '"@ + part + "'"@
}

/// The message for an empty stage.
pub open spec fn empty_stage_text() -> Seq<char> {
    "Empty pipeline stage or trailing/consecutive pipe '|'"@
}

/// The stages of the `|`-separated parts of `t` from `start` on, after the
/// stages `acc` already read.
pub open spec fn spec_stages_from(t: Seq<char>, start: int, acc: Seq<StageV>) -> PipeV
    decreases t.len() - start,
{
    if start < 0 || start > t.len() {
        PipeV::Stages(acc)
    } else {
        let end = next_bar(t, start);
        proof {
            lemma_next_bar(t, start);
        }
        let part = crate::text::trim(t.subrange(start, end));
        if part.len() == 0 {
            PipeV::Refused(empty_stage_text())
        } else {
            match spec_stage(part, 0) {
                Res::Abort => PipeV::Stops,
                Res::NoMatch => PipeV::Refused(parse_error_text(part)),
                Res::Done(st, e) => {
                    let rem = crate::text::trim(part.subrange(e, part.len() as int));
                    if rem.len() > 0 {
                        PipeV::Refused(trailing_text(rem, part))
                    } else if end >= t.len() {
                        PipeV::Stages(acc.push(st))
                    } else {
                        spec_stages_from(t, end + 1, acc.push(st))
                    }
                },
            }
        }
    }
}

/// A whole pipeline: the trimmed text split at each `|`, each part trimmed
/// and read as one stage; an empty text has no stages.
pub open spec fn spec_pipeline(input: Seq<char>) -> PipeV {
    let t = crate::text::trim(input);
    if t.len() == 0 {
        PipeV::Stages(Seq::empty())
    } else {
        spec_stages_from(t, 0, Seq::empty())
    }
}

fn next_bar_exec(t: &[char], i: usize) -> (r: usize)
    requires
        i <= t@.len(),
    ensures
        r == next_bar(t@, i as int),
        i <= r <= t@.len(),
{
    let mut j = i;
    while j < t.len() && t[j] != '|'
        invariant
            i <= j <= t@.len(),
            next_bar(t@, i as int) == next_bar(t@, j as int),
        decreases t.len() - j,
    {
        j += 1;
    }
    j
}

fn group_error_exec(s: &[char]) -> (r: (usize, String))
    ensures
        r.0 as int == group_error(s@).0,
        r.1@ == group_error(s@).1,
        r.0 <= s@.len(),
{
    let len = s.len();
    proof {
        reveal_strlit("group");
        reveal_strlit("Tag");
        reveal_strlit("Char");
        reveal_strlit("TakeWhile1");
    }
    if !has_lit_exec(s, 0, "group") {
        return (0, crate::text::owned("Tag"));
    }
    if !has_char_exec(s, 5, '(') {
        return (5, crate::text::owned("Char"));
    }
    let b = ws_end_exec(s, 6);
    match parse_identifier(s, b) {
        Some((_, e1)) => {
            let c = ws_end_exec(s, e1);
            if !has_char_exec(s, c, ',') {
                (c, crate::text::owned("Char"))
            } else {
                let (_, e2) = parse_agg_list(s, ws_end_exec(s, c + 1));
                (ws_end_exec(s, e2), crate::text::owned("Char"))
            }
        },
        None => (b, crate::text::owned("TakeWhile1")),
    }
}

fn parse_error_message(part: &[char]) -> (r: String)
    ensures
        r@ == parse_error_text(part@),
{
    let (pos, kind) = group_error_exec(part);
    let rest = substring(part, pos, part.len());
    let mut m = crate::text::owned("Parse error in stage '");
    m.append(string_of(part).as_str());
    m.append("': Error(Error { input: ");
    m.append(crate::text::debug_str(rest.as_str()).as_str());
    m.append(", code: ");
    m.append(kind.as_str());
    m.append(" })");
    m
}

fn trailing_message(rem: &str, part: &[char]) -> (r: String)
    ensures
        r@ == trailing_text(rem@, part@),
{
    let mut m = crate::text::owned("Unexpected trailing characters '");
    m.append(rem);
    m.append("' in stage '");
    m.append(string_of(part).as_str());
    m.append("'");
    m
}

/// Reads a pipeline (see [`spec_pipeline`]), telling apart the inputs on
/// which the engine stops.
pub fn parse_pipeline_outcome(input: &str) -> (r: PipelineOutcome)
    ensures
        r@ == spec_pipeline(input@),
{
    let t = crate::text::str_trim(input);
    let tc = crate::text::chars_of(t);
    let len = tc.len();
    let mut out: Vec<PipelineStage> = Vec::new();
    if len == 0 {
        proof {
            assert(crate::types::stages_view(out@) =~= Seq::<StageV>::empty());
        }
        return PipelineOutcome::Stages(out);
    }
    let mut start: usize = 0;
    proof {
        assert(crate::types::stages_view(out@) =~= Seq::<StageV>::empty());
    }
    loop
        invariant
            start <= len,
            len == tc@.len(),
            tc@ == crate::text::trim(input@),
            len > 0,
            spec_pipeline(input@) == spec_stages_from(tc@, start as int, crate::types::stages_view(out@)),
        decreases len - start,
    {
        let end = next_bar_exec(tc.as_slice(), start);
        let piece = substring(tc.as_slice(), start, end);
        let pt = crate::text::str_trim(piece.as_str());
        let pc = crate::text::chars_of(pt);
        if pc.len() == 0 {
            return PipelineOutcome::Refused(crate::text::owned("Empty pipeline stage or trailing/consecutive pipe '|'"));
        }
        match parse_stage(pc.as_slice(), 0) {
            Parsed::Stop => {
                return PipelineOutcome::Stops;
            },
            Parsed::NoMatch => {
                return PipelineOutcome::Refused(parse_error_message(pc.as_slice()));
            },
            Parsed::Done(st, e) => {
                let rest = substring(pc.as_slice(), e, pc.len());
                let rem = crate::text::str_trim(rest.as_str());
                if !rem.is_empty() {
                    return PipelineOutcome::Refused(trailing_message(rem, pc.as_slice()));
                }
                let ghost old_out = out@;
                out.push(st);
                proof {
                    assert(crate::types::stages_view(out@) =~= crate::types::stages_view(old_out).push(
                        st@,
                    ));
                }
                if end >= len {
                    return PipelineOutcome::Stages(out);
                }
                start = end + 1;
            },
        }
    }
}

/// Reads a pipeline of stages separated by `|`, such as
/// `from("logs") | filter(status == "error") | limit(10)`. The engine stops
/// on a number that does not fit where it must; those inputs are excluded.
pub fn parse_pipeline(input: &str) -> (r: Result<Vec<PipelineStage>, String>)
    requires
        !(spec_pipeline(input@) is Stops),
    ensures
        match spec_pipeline(input@) {
            PipeV::Stages(v) => (r matches Ok(out) && crate::types::stages_view(out@) == v),
            PipeV::Refused(m) => (r matches Err(e) && e@ == m),
            PipeV::Stops => false,
        },
{
    match parse_pipeline_outcome(input) {
        PipelineOutcome::Stages(v) => Ok(v),
        PipelineOutcome::Refused(m) => Err(m),
        PipelineOutcome::Stops => Err(String::new()),
    }
}

} // verus!
