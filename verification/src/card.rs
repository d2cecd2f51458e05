//! The boxed text cards that the shell prints: the error card, whose
//! message is wrapped to lines of at most 70 bytes, the card of a committed
//! change, and the table of returned records.
use crate::display::{border_inner, build_border_line, cut_cell, format_cell, format_value_cell, rule};
use crate::parser::{nat_text, nat_text_exec};
use crate::types::{JsonV, JsonValue, Record};
use crate::sysinfo::{lemma_line_end, line_end};
use crate::text::{
    chars_of, is_space, is_unicode_whitespace, lemma_encode_utf8_concat, lemma_trim_start_len, string_of,
    string_push, trim_start,
};
use vstd::prelude::*;
use vstd::string::{StringExecFns, StringSliceAdditionalSpecFns};
use vstd::utf8::{decode_utf8, encode_scalar, encode_utf8, is_char_boundary, valid_utf8};

verus! {

/// The number of bytes of a text in UTF-8.
pub open spec fn blen(s: Seq<char>) -> int {
    encode_utf8(s).len() as int
}

/// The number of bytes of a character in UTF-8.
pub open spec fn clen(c: char) -> int {
    encode_scalar(c as u32).len() as int
}

/// Adding a character adds its bytes.
pub proof fn lemma_blen_push(s: Seq<char>, c: char)
    ensures
        blen(s.push(c)) == blen(s) + clen(c),
        blen(Seq::<char>::empty()) == 0,
{
    lemma_encode_utf8_concat(s, seq![c]);
    assert(s.push(c) =~= s + seq![c]);
    assert(seq![c].drop_first() =~= Seq::<char>::empty());
    assert(encode_utf8(Seq::<char>::empty()) =~= Seq::<u8>::empty());
    assert(encode_utf8(seq![c]) == encode_scalar(seq![c][0] as u32) + encode_utf8(seq![c].drop_first()));
    assert(encode_utf8(seq![c]) =~= encode_scalar(c as u32));
}

proof fn lemma_blen_mono(s: Seq<char>, a: int, b: int)
    requires
        0 <= a <= b <= s.len(),
    ensures
        blen(s.take(a)) <= blen(s.take(b)),
    decreases b - a,
{
    if a < b {
        lemma_blen_mono(s, a, b - 1);
        assert(s.take(b) =~= s.take(b - 1).push(s[b - 1]));
        lemma_blen_push(s.take(b - 1), s[b - 1]);
    }
}

/// A longer prefix has at least as many bytes.
pub proof fn lemma_blen_prefix(s: Seq<char>, a: int, b: int)
    requires
        0 <= a <= b <= s.len(),
    ensures
        blen(s.take(a)) <= blen(s.take(b)),
        blen(s.take(b)) <= blen(s),
{
    lemma_blen_mono(s, a, b);
    lemma_blen_mono(s, b, s.len() as int);
    assert(s.take(s.len() as int) =~= s);
}

/// The bytes of a character.
fn char_len(c: char) -> (n: usize)
    ensures
        n as int == clen(c),
        1 <= n <= 4,
{
    let u = c as u32;
    if u <= 0x7F {
        1
    } else if u <= 0x7FF {
        2
    } else if u <= 0xFFFF {
        3
    } else {
        4
    }
}

/// From `k` characters on, the first count whose bytes reach `n`, when they
/// are exactly `n` bytes; otherwise -1 (byte `n` falls inside a character,
/// or the text is shorter).
pub open spec fn cut_chars(s: Seq<char>, n: int, k: int) -> int
    decreases s.len() - k,
{
    if k < 0 || k > s.len() {
        -1
    } else if blen(s.take(k)) >= n {
        if blen(s.take(k)) == n {
            k
        } else {
            -1
        }
    } else if k == s.len() {
        -1
    } else {
        cut_chars(s, n, k + 1)
    }
}

/// The number of characters that make up exactly the first `n` bytes, or -1.
pub open spec fn chars_within(s: Seq<char>, n: int) -> int {
    cut_chars(s, n, 0)
}

/// A cut count lies between its start and the end of the text.
pub proof fn lemma_cut_chars(s: Seq<char>, n: int, k: int)
    requires
        0 <= k <= s.len(),
    ensures
        cut_chars(s, n, k) == -1 || (k <= cut_chars(s, n, k) <= s.len() && blen(
            s.take(cut_chars(s, n, k)),
        ) == n),
    decreases s.len() - k,
{
    if blen(s.take(k)) < n && k < s.len() {
        lemma_cut_chars(s, n, k + 1);
    }
}

proof fn lemma_cut_chars_skip(s: Seq<char>, n: int, k0: int, k: int)
    requires
        0 <= k0 <= k <= s.len(),
        forall|j: int| k0 <= j < k ==> blen(#[trigger] s.take(j)) < n,
    ensures
        cut_chars(s, n, k0) == cut_chars(s, n, k),
    decreases k - k0,
{
    if k0 < k {
        lemma_cut_chars_skip(s, n, k0 + 1, k);
    }
}

/// The position of the last space among the first `k` characters, or -1.
pub open spec fn last_space(s: Seq<char>, k: int) -> int
    decreases k,
{
    if k <= 0 || k > s.len() {
        -1
    } else if s[k - 1] == ' ' {
        k - 1
    } else {
        last_space(s, k - 1)
    }
}

/// The last space lies before `k`.
pub proof fn lemma_last_space(s: Seq<char>, k: int)
    requires
        0 <= k <= s.len(),
    ensures
        -1 <= last_space(s, k) < k,
    decreases k,
{
    if k > 0 && s[k - 1] != ' ' {
        lemma_last_space(s, k - 1);
    }
}

/// Where a line longer than 70 bytes is cut: at its last space within the
/// first 70 bytes when more than 30 bytes come before that space, else
/// after exactly 70 bytes.
pub open spec fn cut_at(s: Seq<char>) -> int {
    let c = chars_within(s, 70);
    let sp = last_space(s, c);
    if sp >= 0 && blen(s.take(sp)) > 30 {
        sp
    } else {
        c
    }
}

/// A cut falls after the first character and within the first 70 bytes.
pub proof fn lemma_cut_at(s: Seq<char>)
    requires
        chars_within(s, 70) > 0,
    ensures
        0 < cut_at(s) <= chars_within(s, 70) <= s.len(),
        blen(s.take(chars_within(s, 70))) == 70,
        blen(s.take(cut_at(s))) <= 70,
{
    lemma_cut_chars(s, 70, 0);
    let c = chars_within(s, 70);
    lemma_last_space(s, c);
    assert(s.take(0) =~= Seq::<char>::empty());
    lemma_blen_push(Seq::<char>::empty(), 'a');
    if last_space(s, c) >= 0 {
        lemma_blen_prefix(s, last_space(s, c), c);
    }
}

/// A line wrapped to pieces of at most 70 bytes: each cut (see [`cut_at`])
/// ends a piece and the whitespace after it is dropped. (A cut that would
/// fall inside a character yields nothing here; see [`wrap_ok`].)
pub open spec fn wrap_line(s: Seq<char>) -> Seq<Seq<char>>
    decreases s.len(),
{
    if s.len() == 0 {
        Seq::empty()
    } else if blen(s) <= 70 {
        seq![s]
    } else if chars_within(s, 70) <= 0 {
        Seq::empty()
    } else {
        let k = cut_at(s);
        proof {
            lemma_cut_at(s);
            lemma_trim_start_len(s.skip(k));
        }
        seq![s.take(k)] + wrap_line(trim_start(s.skip(k)))
    }
}

/// Every piece of a wrapped line has at most 70 bytes and is not empty.
pub proof fn lemma_wrap_line_short(s: Seq<char>)
    ensures
        forall|j: int| 0 <= j < wrap_line(s).len() ==> 0 < (#[trigger] wrap_line(s)[j]).len() && blen(wrap_line(s)[j]) <= 70,
    decreases s.len(),
{
    if s.len() > 0 && blen(s) > 70 && chars_within(s, 70) > 0 {
        let k = cut_at(s);
        lemma_cut_at(s);
        lemma_trim_start_len(s.skip(k));
        lemma_wrap_line_short(trim_start(s.skip(k)));
        let rest = wrap_line(trim_start(s.skip(k)));
        assert(wrap_line(s) == seq![s.take(k)] + rest);
        assert forall|j: int| 0 <= j < wrap_line(s).len() implies 0 < (#[trigger] wrap_line(s)[j]).len() && blen(
            wrap_line(s)[j],
        ) <= 70 by {
            if j > 0 {
                assert(wrap_line(s)[j] == rest[j - 1]);
            }
        }
    }
}

/// Whether every cut of the wrapping falls between characters.
pub open spec fn wrap_ok(s: Seq<char>) -> bool
    decreases s.len(),
{
    if s.len() == 0 || blen(s) <= 70 {
        true
    } else if chars_within(s, 70) <= 0 {
        false
    } else {
        let k = cut_at(s);
        proof {
            lemma_cut_at(s);
            lemma_trim_start_len(s.skip(k));
        }
        wrap_ok(trim_start(s.skip(k)))
    }
}

/// A line without the `\r` that ended it.
pub open spec fn strip_cr(l: Seq<char>) -> Seq<char> {
    if l.len() > 0 && l.last() == '\r' {
        l.drop_last()
    } else {
        l
    }
}

/// The lines of the text from `i` on (std `str::lines`): split at `\n`, a
/// `\r` before the `\n` dropped, no empty line after a final `\n`.
pub open spec fn lines_from(s: Seq<char>, i: int) -> Seq<Seq<char>>
    decreases s.len() - i,
{
    if i < 0 || i >= s.len() {
        Seq::empty()
    } else {
        let e = line_end(s, i);
        proof {
            lemma_line_end(s, i);
        }
        if e < s.len() {
            seq![strip_cr(s.subrange(i, e))] + lines_from(s, e + 1)
        } else {
            seq![s.subrange(i, e)]
        }
    }
}

/// Whether every line from `i` on wraps between characters.
pub open spec fn lines_wrap_ok(s: Seq<char>, i: int) -> bool
    decreases s.len() - i,
{
    if i < 0 || i >= s.len() {
        true
    } else {
        let e = line_end(s, i);
        proof {
            lemma_line_end(s, i);
        }
        if e < s.len() {
            wrap_ok(strip_cr(s.subrange(i, e))) && lines_wrap_ok(s, e + 1)
        } else {
            wrap_ok(s.subrange(i, e))
        }
    }
}

/// The wrapped pieces of the lines, in order.
pub open spec fn wrapped(ls: Seq<Seq<char>>) -> Seq<Seq<char>>
    decreases ls.len(),
{
    if ls.len() == 0 {
        Seq::empty()
    } else {
        wrap_line(ls[0]) + wrapped(ls.drop_first())
    }
}

/// The lines of an error card's body: the message's lines wrapped, or the
/// whole message when that gives no line.
pub open spec fn card_lines(msg: Seq<char>) -> Seq<Seq<char>> {
    let w = wrapped(lines_from(msg, 0));
    if w.len() == 0 {
        seq![msg]
    } else {
        w
    }
}

/// The most bytes of any of the lines.
pub open spec fn max_blen(ls: Seq<Seq<char>>) -> int
    decreases ls.len(),
{
    if ls.len() == 0 {
        0
    } else {
        let m = max_blen(ls.drop_last());
        if blen(ls.last()) > m {
            blen(ls.last())
        } else {
            m
        }
    }
}

/// An error card's width: its longest line and four, at least 30.
pub open spec fn card_width(ls: Seq<Seq<char>>) -> int {
    if max_blen(ls) + 4 > 30 {
        max_blen(ls) + 4
    } else {
        30
    }
}

/// `n` spaces.
pub open spec fn spaces(n: int) -> Seq<char> {
    Seq::new(n as nat, |i: int| ' ')
}

/// A body line of a card of width `w`.
pub open spec fn card_row(line: Seq<char>, w: int) -> Seq<char> {
    seq!['\u{2502}', ' ', ' '] + line + seq![' ', ' '] + spaces(w - 4 - blen(line)) + seq!['\u{2502}']
}

/// The error card of a message: a box as wide as [`card_width`] with the
/// title `ERROR` centred (an odd space to the right) and the message's
/// [`card_lines`] below it, each indented by two spaces.
pub open spec fn error_card(msg: Seq<char>) -> Seq<Seq<char>> {
    let ls = card_lines(msg);
    let w = card_width(ls);
    let l = (w - 7) / 2;
    let r = w - 7 - l;
    seq![
        seq!['\u{250c}'] + rule((w - 2) as nat) + seq!['\u{2510}'],
        seq!['\u{2502}'] + spaces(l) + seq!['E', 'R', 'R', 'O', 'R'] + spaces(r) + seq!['\u{2502}'],
        seq!['\u{251c}'] + rule((w - 2) as nat) + seq!['\u{2524}'],
    ] + ls.map_values(|line: Seq<char>| card_row(line, w)) + seq![
        seq!['\u{2514}'] + rule((w - 2) as nat) + seq!['\u{2518}'],
    ]
}


/// The texts of character vectors.
pub open spec fn pieces_view(p: Seq<Vec<char>>) -> Seq<Seq<char>> {
    p.map_values(|v: Vec<char>| v@)
}

/// Each length is the byte count of the piece beside it.
pub open spec fn lens_match(p: Seq<Vec<char>>, lens: Seq<usize>) -> bool {
    &&& p.len() == lens.len()
    &&& forall|i: int| 0 <= i < p.len() ==> lens[i] as int == blen(#[trigger] p[i]@)
}

/// Counts characters from the start until their bytes reach `n`: the count
/// and the bytes of those characters.
fn scan_bytes(v: &[char], n: usize) -> (r: (usize, usize))
    requires
        n <= 100,
    ensures
        r.0 <= v@.len(),
        r.1 as int == blen(v@.take(r.0 as int)),
        r.1 >= n || r.0 == v@.len(),
        r.1 <= n + 3,
        forall|j: int| 0 <= j < r.0 ==> blen(#[trigger] v@.take(j)) < n,
{
    let mut k: usize = 0;
    let mut b: usize = 0;
    proof {
        assert(v@.take(0) =~= Seq::<char>::empty());
        lemma_blen_push(Seq::<char>::empty(), 'a');
    }
    while k < v.len() && b < n
        invariant
            k <= v@.len(),
            n <= 100,
            b as int == blen(v@.take(k as int)),
            b <= n + 3,
            forall|j: int| 0 <= j < k ==> blen(#[trigger] v@.take(j)) < n,
        decreases v.len() - k,
    {
        let c = char_len(v[k]);
        proof {
            lemma_blen_push(v@.take(k as int), v@[k as int]);
            assert(v@.take(k + 1) =~= v@.take(k as int).push(v@[k as int]));
        }
        b = b + c;
        k = k + 1;
    }
    (k, b)
}

/// The bytes of the first `k` characters, when they are at most 100.
fn prefix_bytes(v: &[char], k: usize) -> (b: usize)
    requires
        k <= v@.len(),
        blen(v@.take(k as int)) <= 100,
    ensures
        b as int == blen(v@.take(k as int)),
{
    let mut i: usize = 0;
    let mut b: usize = 0;
    proof {
        assert(v@.take(0) =~= Seq::<char>::empty());
        lemma_blen_push(Seq::<char>::empty(), 'a');
    }
    while i < k
        invariant
            i <= k <= v@.len(),
            blen(v@.take(k as int)) <= 100,
            b as int == blen(v@.take(i as int)),
        decreases k - i,
    {
        proof {
            lemma_blen_push(v@.take(i as int), v@[i as int]);
            assert(v@.take(i + 1) =~= v@.take(i as int).push(v@[i as int]));
            lemma_blen_mono(v@, i + 1, k as int);
        }
        b = b + char_len(v[i]);
        i = i + 1;
    }
    b
}

/// The characters from `a` up to `b`.
fn copy_range(v: &[char], a: usize, b: usize) -> (r: Vec<char>)
    requires
        a <= b <= v@.len(),
    ensures
        r@ == v@.subrange(a as int, b as int),
{
    let mut r: Vec<char> = Vec::new();
    let mut k = a;
    while k < b
        invariant
            a <= k <= b <= v@.len(),
            r@ == v@.subrange(a as int, k as int),
        decreases b - k,
    {
        r.push(v[k]);
        k += 1;
        proof {
            assert(r@ =~= v@.subrange(a as int, k as int));
        }
    }
    r
}

/// The characters from `k` on without their leading whitespace.
fn trimmed_rest(v: &[char], k: usize) -> (r: Vec<char>)
    requires
        k <= v@.len(),
    ensures
        r@ == trim_start(v@.skip(k as int)),
{
    let mut j = k;
    while j < v.len() && is_space(v[j])
        invariant
            k <= j <= v@.len(),
            trim_start(v@.skip(j as int)) == trim_start(v@.skip(k as int)),
        decreases v.len() - j,
    {
        proof {
            assert(v@.skip(j as int)[0] == v@[j as int]);
            assert(v@.skip(j as int).drop_first() =~= v@.skip(j + 1));
        }
        j += 1;
    }
    proof {
        if j < v@.len() {
            assert(v@.skip(j as int)[0] == v@[j as int]);
        }
        assert(v@.subrange(j as int, v@.len() as int) =~= v@.skip(j as int));
    }
    copy_range(v, j, v.len())
}

/// Wraps a line (see [`wrap_line`]), appending its pieces and their bytes.
fn wrap_into(line: Vec<char>, pieces: &mut Vec<Vec<char>>, lens: &mut Vec<usize>)
    requires
        wrap_ok(line@),
        lens_match(old(pieces)@, old(lens)@),
    ensures
        pieces_view(final(pieces)@) == pieces_view(old(pieces)@) + wrap_line(line@),
        lens_match(final(pieces)@, final(lens)@),
        final(lens)@.len() >= old(lens)@.len(),
        final(lens)@.take(old(lens)@.len() as int) == old(lens)@,
        forall|i: int| old(lens)@.len() <= i < final(lens)@.len() ==> final(lens)@[i] <= 70,
{
    let ghost p0 = pieces_view(pieces@);
    let ghost l0 = lens@;
    let mut rem = line;
    while rem.len() > 0
        invariant
            wrap_ok(rem@),
            pieces_view(pieces@) + wrap_line(rem@) == p0 + wrap_line(line@),
            lens_match(pieces@, lens@),
            lens@.len() >= l0.len(),
            lens@.take(l0.len() as int) == l0,
            forall|i: int| l0.len() <= i < lens@.len() ==> lens@[i] <= 70,
        decreases rem.len(),
    {
        let ghost r0 = rem@;
        let (k1, b1) = scan_bytes(rem.as_slice(), 71);
        if k1 == rem.len() && b1 <= 70 {
            proof {
                assert(r0.take(r0.len() as int) =~= r0);
            }
            pieces.push(rem);
            lens.push(b1);
            rem = Vec::new();
            proof {
                assert(pieces_view(pieces@) =~= pieces_view(pieces@.drop_last()).push(r0));
                assert(wrap_line(rem@) =~= Seq::<Seq<char>>::empty());
                assert(lens@.take(l0.len() as int) =~= l0);
            }
        } else {
            proof {
                lemma_blen_prefix(r0, k1 as int, r0.len() as int);
                assert(r0.take(r0.len() as int) =~= r0);
            }
            let (c, b) = scan_bytes(rem.as_slice(), 70);
            proof {
                lemma_cut_chars_skip(r0, 70, 0, c as int);
                lemma_blen_prefix(r0, c as int, r0.len() as int);
                assert(chars_within(r0, 70) > 0);
                assert(b == 70);
                lemma_cut_at(r0);
            }
            let mut j = c;
            while j > 0 && rem[j - 1] != ' '
                invariant
                    j <= c <= rem@.len(),
                    rem@ == r0,
                    last_space(r0, j as int) == last_space(r0, c as int),
                decreases j,
            {
                j -= 1;
            }
            let mut k = c;
            let mut kb: usize = 70;
            if j > 0 {
                proof {
                    lemma_blen_prefix(r0, j - 1, c as int);
                }
                let sb = prefix_bytes(rem.as_slice(), j - 1);
                if sb > 30 {
                    k = j - 1;
                    kb = sb;
                }
            }
            proof {
                assert(k as int == cut_at(r0));
            }
            let piece = copy_range(rem.as_slice(), 0, k);
            let next = trimmed_rest(rem.as_slice(), k);
            proof {
                assert(piece@ =~= r0.take(k as int));
                lemma_trim_start_len(r0.skip(k as int));
            }
            pieces.push(piece);
            lens.push(kb);
            rem = next;
            proof {
                assert(pieces_view(pieces@) =~= pieces_view(pieces@.drop_last()).push(r0.take(k as int)));
                assert(wrap_line(r0) == seq![r0.take(k as int)] + wrap_line(rem@));
                assert(lens@.take(l0.len() as int) =~= l0);
            }
        }
    }
    proof {
        assert(wrap_line(rem@) =~= Seq::<Seq<char>>::empty());
        assert(pieces_view(pieces@) =~= p0 + wrap_line(line@));
    }
}


/// Appends `n` copies of a character.
fn push_n(s: &mut String, c: char, n: usize)
    ensures
        final(s)@ == old(s)@ + Seq::new(n as nat, |i: int| c),
{
    let mut k: usize = 0;
    while k < n
        invariant
            k <= n,
            s@ == old(s)@ + Seq::new(k as nat, |i: int| c),
        decreases n - k,
    {
        string_push(s, c);
        k += 1;
        proof {
            assert(s@ =~= old(s)@ + Seq::new(k as nat, |i: int| c));
        }
    }
}

/// A border line of a card of width `w`.
fn card_border(left: char, right: char, w: usize) -> (r: String)
    requires
        w >= 2,
    ensures
        r@ == seq![left] + rule((w - 2) as nat) + seq![right],
{
    let mut s = String::new();
    string_push(&mut s, left);
    push_n(&mut s, '\u{2500}', w - 2);
    string_push(&mut s, right);
    proof {
        assert(s@ =~= seq![left] + rule((w - 2) as nat) + seq![right]);
    }
    s
}

/// Splits a message into lines and wraps each (see [`lines_from`] and
/// [`wrapped`]).
fn wrap_message(v: &[char], pieces: &mut Vec<Vec<char>>, lens: &mut Vec<usize>)
    requires
        lines_wrap_ok(v@, 0),
        old(pieces)@.len() == 0,
        old(lens)@.len() == 0,
    ensures
        pieces_view(final(pieces)@) == wrapped(lines_from(v@, 0)),
        lens_match(final(pieces)@, final(lens)@),
        forall|i: int| 0 <= i < final(lens)@.len() ==> final(lens)@[i] <= 70,
{
    let mut i: usize = 0;
    proof {
        assert(pieces_view(pieces@) =~= Seq::<Seq<char>>::empty());
    }
    while i < v.len()
        invariant
            i <= v@.len(),
            lines_wrap_ok(v@, i as int),
            pieces_view(pieces@) + wrapped(lines_from(v@, i as int)) == wrapped(lines_from(v@, 0)),
            lens_match(pieces@, lens@),
            forall|t: int| 0 <= t < lens@.len() ==> lens@[t] <= 70,
        decreases v.len() - i,
    {
        let mut e = i;
        while e < v.len() && v[e] != '\n'
            invariant
                i <= e <= v@.len(),
                line_end(v@, e as int) == line_end(v@, i as int),
            decreases v.len() - e,
        {
            e += 1;
        }
        proof {
            lemma_line_end(v@, i as int);
        }
        let ghost ls = lines_from(v@, i as int);
        let ghost p_before = pieces_view(pieces@);
        let ghost l_before = lens@;
        if e < v.len() {
            let mut end = e;
            if end > i && v[end - 1] == '\r' {
                end = end - 1;
            }
            let line = copy_range(v, i, end);
            proof {
                let l = v@.subrange(i as int, e as int);
                if e > i && v@[e - 1] == '\r' {
                    assert(strip_cr(l) =~= line@);
                } else {
                    assert(strip_cr(l) =~= line@);
                }
                assert(ls == seq![line@] + lines_from(v@, e + 1));
                assert(ls[0] == line@);
                assert(ls.drop_first() =~= lines_from(v@, e + 1));
            }
            wrap_into(line, pieces, lens);
            i = e + 1;
            proof {
                assert forall|t: int| 0 <= t < lens@.len() implies lens@[t] <= 70 by {
                    if t < l_before.len() {
                        assert(lens@.take(l_before.len() as int)[t] == l_before[t]);
                    }
                }
                assert(pieces_view(pieces@) + wrapped(lines_from(v@, i as int)) =~= p_before + wrapped(ls));
            }
        } else {
            let line = copy_range(v, i, e);
            proof {
                assert(ls == seq![line@]);
                assert(ls[0] == line@);
                assert(ls.drop_first() =~= Seq::<Seq<char>>::empty());
                assert(wrapped(ls.drop_first()) =~= Seq::<Seq<char>>::empty());
            }
            wrap_into(line, pieces, lens);
            i = e;
            proof {
                assert forall|t: int| 0 <= t < lens@.len() implies lens@[t] <= 70 by {
                    if t < l_before.len() {
                        assert(lens@.take(l_before.len() as int)[t] == l_before[t]);
                    }
                }
                assert(lines_from(v@, i as int) =~= Seq::<Seq<char>>::empty());
                assert(wrapped(lines_from(v@, i as int)) =~= Seq::<Seq<char>>::empty());
                assert(pieces_view(pieces@) + wrapped(lines_from(v@, i as int)) =~= p_before + wrapped(ls));
            }
        }
    }
    proof {
        assert(lines_from(v@, i as int) =~= Seq::<Seq<char>>::empty());
        assert(wrapped(lines_from(v@, i as int)) =~= Seq::<Seq<char>>::empty());
        assert(pieces_view(pieces@) =~= wrapped(lines_from(v@, 0)));
    }
}


/// The longest line has at least the bytes of each line.
pub proof fn lemma_max_blen(ls: Seq<Seq<char>>)
    ensures
        max_blen(ls) >= 0,
        forall|t: int| 0 <= t < ls.len() ==> blen(#[trigger] ls[t]) <= max_blen(ls),
        ls.len() > 0 ==> exists|t: int| 0 <= t < ls.len() && blen(#[trigger] ls[t]) == max_blen(ls),
    decreases ls.len(),
{
    if ls.len() > 0 {
        lemma_max_blen(ls.drop_last());
        assert forall|t: int| 0 <= t < ls.len() implies blen(#[trigger] ls[t]) <= max_blen(ls) by {
            if t < ls.len() - 1 {
                assert(ls[t] == ls.drop_last()[t]);
            }
        }
        if blen(ls.last()) > max_blen(ls.drop_last()) || ls.len() == 1 {
            assert(blen(ls[ls.len() - 1]) == max_blen(ls) || ls.len() == 1);
            if ls.len() == 1 {
                assert(ls.drop_last().len() == 0);
                assert(blen(ls[0]) >= 0);
                assert(blen(ls[0]) == max_blen(ls) || max_blen(ls) == 0);
                if blen(ls[0]) != max_blen(ls) {
                    assert(blen(ls[0]) == 0);
                }
            }
        } else {
            let t0 = choose|t: int| 0 <= t < ls.drop_last().len() && blen(#[trigger] ls.drop_last()[t]) == max_blen(ls.drop_last());
            assert(ls[t0] == ls.drop_last()[t0]);
        }
    }
}

/// The error card of a message (see [`error_card`]). Every cut of a long
/// line must fall between characters; the message's length is one that a
/// string can have.
pub fn format_error_card(err_msg: &str) -> (r: Vec<String>)
    requires
        lines_wrap_ok(err_msg@, 0),
        blen(err_msg@) <= isize::MAX,
    ensures
        r@.map_values(|x: String| x@) == error_card(err_msg@),
{
    let v = chars_of(err_msg);
    let mut pieces: Vec<Vec<char>> = Vec::new();
    let mut lens: Vec<usize> = Vec::new();
    wrap_message(v.as_slice(), &mut pieces, &mut lens);
    if pieces.len() == 0 {
        let n = err_msg.as_bytes().len();
        pieces.push(v);
        lens.push(n);
        proof {
            assert(pieces_view(pieces@) =~= seq![err_msg@]);
        }
    }
    let ghost ls = pieces_view(pieces@);
    proof {
        assert(ls == card_lines(err_msg@));
        assert forall|t: int| 0 <= t < lens@.len() implies lens@[t] <= isize::MAX by {
            assert(lens@[t] as int == blen(pieces@[t]@));
        }
    }
    let mut m: usize = 0;
    let mut t: usize = 0;
    proof {
        assert(ls.take(0) =~= Seq::<Seq<char>>::empty());
    }
    while t < lens.len()
        invariant
            t <= lens@.len(),
            lens_match(pieces@, lens@),
            ls == pieces_view(pieces@),
            forall|q: int| 0 <= q < lens@.len() ==> lens@[q] <= isize::MAX,
            m as int == max_blen(ls.take(t as int)),
            m <= isize::MAX,
        decreases lens.len() - t,
    {
        proof {
            assert(ls.take(t + 1).drop_last() =~= ls.take(t as int));
            assert(ls.take(t + 1).last() == ls[t as int]);
            assert(lens@[t as int] as int == blen(pieces@[t as int]@));
        }
        if lens[t] > m {
            m = lens[t];
        }
        t += 1;
    }
    proof {
        assert(ls.take(t as int) =~= ls);
        lemma_max_blen(ls);
    }
    let w: usize = if m + 4 > 30 { m + 4 } else { 30 };
    proof {
        assert forall|t: int| 0 <= t < lens@.len() implies lens@[t] + 4 <= w by {
            assert(lens@[t] as int == blen(pieces@[t]@));
            assert(ls[t] == pieces@[t]@);
        }
    }
    let mut rows = card_rows(&pieces, &lens, w);
    let mut out: Vec<String> = Vec::new();
    out.push(card_border('\u{250c}', '\u{2510}', w));
    out.push(card_title(w));
    out.push(card_border('\u{251c}', '\u{2524}', w));
    out.append(&mut rows);
    out.push(card_border('\u{2514}', '\u{2518}', w));
    proof {
        let top = seq!['\u{250c}'] + rule((w - 2) as nat) + seq!['\u{2510}'];
        let l = (w - 7) / 2;
        let ttl = seq!['\u{2502}'] + spaces(l) + seq!['E', 'R', 'R', 'O', 'R'] + spaces(w - 7 - l) + seq!['\u{2502}'];
        let sep = seq!['\u{251c}'] + rule((w - 2) as nat) + seq!['\u{2524}'];
        let bot = seq!['\u{2514}'] + rule((w - 2) as nat) + seq!['\u{2518}'];
        let body = ls.map_values(|line: Seq<char>| card_row(line, w as int));
        assert(out@.map_values(|x: String| x@) =~= seq![top, ttl, sep] + body + seq![bot]);
    }
    out
}

/// The title line of a card of width `w`.
fn card_title(w: usize) -> (r: String)
    requires
        w >= 30,
    ensures
        r@ == seq!['\u{2502}'] + spaces((w - 7) / 2) + seq!['E', 'R', 'R', 'O', 'R'] + spaces(w - 7 - (w - 7) / 2)
            + seq!['\u{2502}'],
{
    let l = (w - 7) / 2;
    let rr = w - 7 - l;
    let mut title = String::new();
    string_push(&mut title, '\u{2502}');
    push_n(&mut title, ' ', l);
    string_push(&mut title, 'E');
    string_push(&mut title, 'R');
    string_push(&mut title, 'R');
    string_push(&mut title, 'O');
    string_push(&mut title, 'R');
    push_n(&mut title, ' ', rr);
    string_push(&mut title, '\u{2502}');
    proof {
        assert(title@ =~= seq!['\u{2502}'] + spaces(l as int) + seq!['E', 'R', 'R', 'O', 'R'] + spaces(rr as int)
            + seq!['\u{2502}']);
    }
    title
}

/// The body lines of a card of width `w`, one per piece.
fn card_rows(pieces: &Vec<Vec<char>>, lens: &Vec<usize>, w: usize) -> (r: Vec<String>)
    requires
        lens_match(pieces@, lens@),
        forall|t: int| 0 <= t < lens@.len() ==> lens@[t] + 4 <= w,
    ensures
        r@.map_values(|x: String| x@) == pieces_view(pieces@).map_values(|line: Seq<char>| card_row(line, w as int)),
{
    let ghost ls = pieces_view(pieces@);
    let mut out: Vec<String> = Vec::new();
    let mut q: usize = 0;
    proof {
        assert(out@.map_values(|x: String| x@) =~= ls.take(0).map_values(|line: Seq<char>| card_row(line, w as int)));
    }
    while q < pieces.len()
        invariant
            q <= pieces@.len(),
            lens_match(pieces@, lens@),
            ls == pieces_view(pieces@),
            forall|t: int| 0 <= t < lens@.len() ==> lens@[t] + 4 <= w,
            out@.map_values(|x: String| x@) == ls.take(q as int).map_values(|line: Seq<char>| card_row(line, w as int)),
        decreases pieces.len() - q,
    {
        let mut row = String::new();
        string_push(&mut row, '\u{2502}');
        string_push(&mut row, ' ');
        string_push(&mut row, ' ');
        let text = string_of(pieces[q].as_slice());
        row.append(text.as_str());
        string_push(&mut row, ' ');
        string_push(&mut row, ' ');
        proof {
            assert(ls[q as int] == pieces@[q as int]@);
            assert(lens@[q as int] as int == blen(ls[q as int]));
        }
        push_n(&mut row, ' ', w - 4 - lens[q]);
        string_push(&mut row, '\u{2502}');
        proof {
            assert(row@ =~= card_row(ls[q as int], w as int));
        }
        let ghost before = out@.map_values(|x: String| x@);
        out.push(row);
        q += 1;
        proof {
            assert(out@.map_values(|x: String| x@) =~= before.push(card_row(ls[q - 1], w as int)));
            assert(ls.take(q as int).map_values(|line: Seq<char>| card_row(line, w as int)) =~= ls.take(q - 1).map_values(
                |line: Seq<char>| card_row(line, w as int),
            ).push(card_row(ls[q - 1], w as int)));
        }
    }
    proof {
        assert(ls.take(q as int) =~= ls);
    }
    out
}


/// A cell as the table shows it: at most `max` bytes, else its first `keep`
/// bytes and `...` (see [`cut_cell`]).
pub open spec fn cell_text(s: Seq<char>, max: int, keep: int) -> Seq<char> {
    decode_utf8(cut_cell(encode_utf8(s), max, keep))
}

/// The shown cells of a row of texts (sequence number, key, value).
pub open spec fn shown_cells(row: (Seq<char>, Seq<char>, Seq<char>)) -> (Seq<char>, Seq<char>, Seq<char>) {
    (cell_text(row.0, 40, 37), cell_text(row.1, 40, 37), cell_text(row.2, 100, 97))
}

/// The larger of two integers.
pub open spec fn imax(a: int, b: int) -> int {
    if b > a {
        b
    } else {
        a
    }
}

/// Each column's width: the bytes of the longest of its header and its
/// shown cells.
pub open spec fn column_widths(rows: Seq<(Seq<char>, Seq<char>, Seq<char>)>) -> (int, int, int)
    decreases rows.len(),
{
    if rows.len() == 0 {
        (6, 3, 5)
    } else {
        let w = column_widths(rows.drop_last());
        let c = shown_cells(rows.last());
        (imax(w.0, blen(c.0)), imax(w.1, blen(c.1)), imax(w.2, blen(c.2)))
    }
}

/// A text padded with spaces to `w` characters.
pub open spec fn padded(t: Seq<char>, w: int) -> Seq<char> {
    if t.len() < w {
        t + spaces(w - t.len())
    } else {
        t
    }
}

/// A table line of three cells.
pub open spec fn table_row(c: (Seq<char>, Seq<char>, Seq<char>), w: (int, int, int)) -> Seq<char> {
    seq!['\u{2502}', ' '] + padded(c.0, w.0) + seq![' ', '\u{2502}', ' '] + padded(c.1, w.1) + seq![
        ' ',
        '\u{2502}',
        ' ',
    ] + padded(c.2, w.2) + seq![' ', '\u{2502}']
}

/// A table border.
pub open spec fn table_border(left: char, middle: char, right: char, w: (int, int, int)) -> Seq<char> {
    seq![left] + border_inner(middle, seq![w.0 as usize, w.1 as usize, w.2 as usize]) + seq![right]
}

/// The table of rows: a boxed grid with the headers `seq_id`, `key` and
/// `value`, one line per row, and the number of rows below; or the line
/// `(0 rows returned)`.
pub open spec fn records_table(rows: Seq<(Seq<char>, Seq<char>, Seq<char>)>) -> Seq<Seq<char>> {
    if rows.len() == 0 {
        seq!["(0 rows returned)"@]
    } else {
        let w = column_widths(rows);
        seq![
            table_border('\u{250c}', '\u{252c}', '\u{2510}', w),
            table_row(("seq_id"@, "key"@, "value"@), w),
            table_border('\u{251c}', '\u{253c}', '\u{2524}', w),
        ] + rows.map_values(|row: (Seq<char>, Seq<char>, Seq<char>)| table_row(shown_cells(row), w)) + seq![
            table_border('\u{2514}', '\u{2534}', '\u{2518}', w),
            seq!['('] + nat_text(rows.len()) + " rows returned)"@,
        ]
    }
}

/// A key as text: its bytes read as UTF-8, or nothing when they are not.
pub open spec fn key_display(k: Seq<u8>) -> Seq<char> {
    if valid_utf8(k) {
        decode_utf8(k)
    } else {
        Seq::empty()
    }
}

/// The texts of the records' rows, the value texts given.
pub open spec fn table_rows(records: Seq<Record>, value_texts: Seq<String>) -> Seq<(Seq<char>, Seq<char>, Seq<char>)> {
    Seq::new(
        records.len(),
        |i: int| (nat_text(records[i].sequence_id as nat), key_display(records[i].key@), value_texts[i]@),
    )
}

/// A cell as shown, with its bytes.
fn shown(s: &str, value_column: bool) -> (r: (String, usize))
    requires
        !value_column ==> (s.spec_bytes().len() > 40 ==> is_char_boundary(s.spec_bytes(), 37)),
        value_column ==> (s.spec_bytes().len() > 100 ==> is_char_boundary(s.spec_bytes(), 97)),
    ensures
        r.0@ == (if value_column {
            cell_text(s@, 100, 97)
        } else {
            cell_text(s@, 40, 37)
        }),
        r.1 as int == blen(r.0@),
        r.1 <= 100,
{
    let c = if value_column {
        format_value_cell(s)
    } else {
        format_cell(s)
    };
    proof {
        vstd::utf8::encode_utf8_decode_utf8(c@);
    }
    let n = c.as_str().as_bytes().len();
    (c, n)
}

/// A table line of three cells padded to the widths.
fn row_line(c0: &String, c1: &String, c2: &String, w0: usize, w1: usize, w2: usize) -> (r: String)
    ensures
        r@ == table_row((c0@, c1@, c2@), (w0 as int, w1 as int, w2 as int)),
{
    let mut s = String::new();
    string_push(&mut s, '\u{2502}');
    string_push(&mut s, ' ');
    push_padded(&mut s, c0, w0);
    string_push(&mut s, ' ');
    string_push(&mut s, '\u{2502}');
    string_push(&mut s, ' ');
    push_padded(&mut s, c1, w1);
    string_push(&mut s, ' ');
    string_push(&mut s, '\u{2502}');
    string_push(&mut s, ' ');
    push_padded(&mut s, c2, w2);
    string_push(&mut s, ' ');
    string_push(&mut s, '\u{2502}');
    proof {
        assert(s@ =~= table_row((c0@, c1@, c2@), (w0 as int, w1 as int, w2 as int)));
    }
    s
}

/// Appends a text padded with spaces to `w` characters.
fn push_padded(s: &mut String, t: &String, w: usize)
    ensures
        final(s)@ == old(s)@ + padded(t@, w as int),
{
    s.append(t.as_str());
    let n = chars_of(t.as_str()).len();
    if n < w {
        push_n(s, ' ', w - n);
    }
    proof {
        assert(final(s)@ =~= old(s)@ + padded(t@, w as int));
    }
}

/// A decimal number's digits are single-byte characters.
proof fn lemma_nat_text_ascii(n: nat)
    ensures
        vstd::utf8::is_ascii_chars(nat_text(n)),
    decreases n,
{
    if n >= 10 {
        lemma_nat_text_ascii(n / 10);
        let t = nat_text(n / 10).push((('0' as int) + (n % 10)) as char);
        assert forall|i: int| 0 <= i < t.len() implies '\0' <= #[trigger] t[i] <= '\u{7f}' by {
            if i < t.len() - 1 {
                assert(t[i] == nat_text(n / 10)[i]);
            }
        }
    }
}

/// The table of records (see [`records_table`]), the text of each value
/// given; a value text longer than 100 bytes must have a character boundary
/// at byte 97.
pub fn format_records_table(records: &Vec<Record>, value_texts: &Vec<String>) -> (r: Vec<String>)
    requires
        value_texts@.len() == records@.len(),
        forall|i: int|
            0 <= i < value_texts@.len() ==> (blen(#[trigger] value_texts@[i]@) > 100 ==> is_char_boundary(
                encode_utf8(value_texts@[i]@),
                97,
            )),
    ensures
        r@.map_values(|x: String| x@) == records_table(table_rows(records@, value_texts@)),
{
    let ghost rows = table_rows(records@, value_texts@);
    if records.len() == 0 {
        let mut out: Vec<String> = Vec::new();
        out.push(String::from_str("(0 rows returned)"));
        proof {
            assert(out@.map_values(|x: String| x@) =~= records_table(rows));
        }
        return out;
    }
    let mut cells: Vec<(String, String, String)> = Vec::new();
    let mut w0: usize = 6;
    let mut w1: usize = 3;
    let mut w2: usize = 5;
    let mut i: usize = 0;
    proof {
        assert(rows.take(0) =~= Seq::<(Seq<char>, Seq<char>, Seq<char>)>::empty());
    }
    while i < records.len()
        invariant
            i <= records@.len(),
            value_texts@.len() == records@.len(),
            rows == table_rows(records@, value_texts@),
            forall|j: int|
                0 <= j < value_texts@.len() ==> (blen(#[trigger] value_texts@[j]@) > 100 ==> is_char_boundary(
                    encode_utf8(value_texts@[j]@),
                    97,
                )),
            cells@.len() == i,
            forall|j: int|
                0 <= j < i ==> ((#[trigger] cells@[j]).0@, cells@[j].1@, cells@[j].2@) == shown_cells(rows[j]),
            (w0 as int, w1 as int, w2 as int) == column_widths(rows.take(i as int)),
            w0 <= 100 && w1 <= 100 && w2 <= 100,
        decreases records.len() - i,
    {
        let rec = &records[i];
        let t0 = nat_text_exec(rec.sequence_id);
        let t1 = rec.key.to_string();
        proof {
            lemma_nat_text_ascii(rec.sequence_id as nat);
            crate::window::lemma_nat_text_len(rec.sequence_id as nat);
            vstd::utf8::is_ascii_chars_encode_utf8(t0@);
            rec.key.lemma_key_len();
            if valid_utf8(rec.key@) {
                vstd::utf8::decode_utf8_encode_utf8(rec.key@);
            }
        }
        let (c0, b0) = shown(t0.as_str(), false);
        let (c1, b1) = shown(t1.as_str(), false);
        let (c2, b2) = shown(value_texts[i].as_str(), true);
        proof {
            assert(rows[i as int] == (t0@, t1@, value_texts@[i as int]@));
            assert(rows.take(i + 1).drop_last() =~= rows.take(i as int));
            assert(rows.take(i + 1).last() == rows[i as int]);
        }
        if b0 > w0 {
            w0 = b0;
        }
        if b1 > w1 {
            w1 = b1;
        }
        if b2 > w2 {
            w2 = b2;
        }
        cells.push((c0, c1, c2));
        i += 1;
    }
    proof {
        assert(rows.take(i as int) =~= rows);
    }
    let ghost w = (w0 as int, w1 as int, w2 as int);
    let mut widths: Vec<usize> = Vec::new();
    widths.push(w0);
    widths.push(w1);
    widths.push(w2);
    proof {
        assert(widths@ =~= seq![w0, w1, w2]);
    }
    let mut out: Vec<String> = Vec::new();
    out.push(build_border_line('\u{250c}', '\u{252c}', '\u{2510}', widths.as_slice()));
    let h0 = String::from_str("seq_id");
    let h1 = String::from_str("key");
    let h2 = String::from_str("value");
    out.push(row_line(&h0, &h1, &h2, w0, w1, w2));
    out.push(build_border_line('\u{251c}', '\u{253c}', '\u{2524}', widths.as_slice()));
    let ghost head = out@.map_values(|x: String| x@);
    let mut q: usize = 0;
    proof {
        assert(head =~= seq![
            table_border('\u{250c}', '\u{252c}', '\u{2510}', w),
            table_row(("seq_id"@, "key"@, "value"@), w),
            table_border('\u{251c}', '\u{253c}', '\u{2524}', w),
        ]);
        assert(out@.map_values(|x: String| x@) =~= head + rows.take(0).map_values(
            |row: (Seq<char>, Seq<char>, Seq<char>)| table_row(shown_cells(row), w),
        ));
    }
    while q < cells.len()
        invariant
            q <= cells@.len(),
            cells@.len() == rows.len(),
            w == (w0 as int, w1 as int, w2 as int),
            forall|j: int|
                0 <= j < rows.len() ==> ((#[trigger] cells@[j]).0@, cells@[j].1@, cells@[j].2@) == shown_cells(rows[j]),
            out@.map_values(|x: String| x@) == head + rows.take(q as int).map_values(
                |row: (Seq<char>, Seq<char>, Seq<char>)| table_row(shown_cells(row), w),
            ),
        decreases cells.len() - q,
    {
        let line = row_line(&cells[q].0, &cells[q].1, &cells[q].2, w0, w1, w2);
        let ghost before = out@.map_values(|x: String| x@);
        out.push(line);
        q += 1;
        proof {
            assert(out@.map_values(|x: String| x@) =~= before.push(table_row(shown_cells(rows[q - 1]), w)));
            assert(rows.take(q as int).map_values(|row: (Seq<char>, Seq<char>, Seq<char>)| table_row(shown_cells(row), w))
                =~= rows.take(q - 1).map_values(|row: (Seq<char>, Seq<char>, Seq<char>)| table_row(shown_cells(row), w)).push(
                table_row(shown_cells(rows[q - 1]), w),
            ));
        }
    }
    let ghost body = out@.map_values(|x: String| x@);
    out.push(build_border_line('\u{2514}', '\u{2534}', '\u{2518}', widths.as_slice()));
    let mut last = String::new();
    string_push(&mut last, '(');
    let count = nat_text_exec(records.len() as u64);
    last.append(count.as_str());
    last.append(" rows returned)");
    out.push(last);
    proof {
        assert(rows.take(q as int) =~= rows);
        assert(last@ == seq!['('] + nat_text(rows.len()) + " rows returned)"@);
        assert(out@.map_values(|x: String| x@) =~= body + seq![
            table_border('\u{2514}', '\u{2534}', '\u{2518}', w),
            seq!['('] + nat_text(rows.len()) + " rows returned)"@,
        ]);
        assert(out@.map_values(|x: String| x@) =~= records_table(rows));
    }
    out
}


/// The value of the first entry with the key.
pub open spec fn lookup(doc: Seq<(Seq<char>, JsonV)>, key: Seq<char>) -> Option<JsonV>
    decreases doc.len(),
{
    if doc.len() == 0 {
        None
    } else if doc[0].0 == key {
        Some(doc[0].1)
    } else {
        lookup(doc.drop_first(), key)
    }
}

/// A change's status: the document's `status` text, else `success`.
pub open spec fn change_status(doc: Seq<(Seq<char>, JsonV)>) -> Seq<char> {
    match lookup(doc, "status"@) {
        Some(JsonV::Str(t)) => t,
        _ => "success"@,
    }
}

/// The rows a change touched: the document's `affected_rows` when it is a
/// non-negative integer, else 0.
pub open spec fn change_count(doc: Seq<(Seq<char>, JsonV)>) -> nat {
    match lookup(doc, "affected_rows"@) {
        Some(JsonV::Int(i)) => if i >= 0 {
            i as nat
        } else {
            0
        },
        Some(JsonV::UInt(u)) => u as nat,
        _ => 0,
    }
}

/// The card of a committed change on a stream.
pub open spec fn change_card(stream: Seq<char>, doc: Seq<(Seq<char>, JsonV)>) -> Seq<Seq<char>> {
    seq![
        "\u{250c}────────────────────────────────────────────────────────\u{2510}"@,
        "\u{2502}                 TRANSACTION COMMITTED                  \u{2502}"@,
        "\u{251c}────────────────────────────────────────────────────────\u{2524}"@,
        "\u{2502}  Stream Name: "@ + padded(stream, 41) + "\u{2502}"@,
        "\u{2502}  Status:      "@ + padded(change_status(doc), 41) + "\u{2502}"@,
        "\u{2502}  Rows Mutated:"@ + padded(nat_text(change_count(doc)), 41) + "\u{2502}"@,
        "\u{2514}────────────────────────────────────────────────────────\u{2518}"@,
    ]
}

/// The value of the first entry with the key.
pub(crate) fn lookup_exec<'a>(doc: &'a Vec<(String, JsonValue)>, key: &str) -> (r: Option<&'a JsonValue>)
    ensures
        match r {
            Some(v) => lookup(crate::types::json_entries_view(doc@), key@) == Some(v@),
            None => lookup(crate::types::json_entries_view(doc@), key@) is None,
        },
{
    let ghost d = crate::types::json_entries_view(doc@);
    proof {
        crate::query_parser::lemma_json_entries_view_index(doc@);
        assert(d.skip(0) =~= d);
    }
    let mut i: usize = 0;
    while i < doc.len()
        invariant
            i <= doc@.len(),
            d == crate::types::json_entries_view(doc@),
            d.len() == doc@.len(),
            forall|j: int| 0 <= j < doc@.len() ==> #[trigger] d[j] == (doc@[j].0@, doc@[j].1@),
            lookup(d, key@) == lookup(d.skip(i as int), key@),
        decreases doc.len() - i,
    {
        let k = &doc[i].0;
        let kc = chars_of(k.as_str());
        if crate::text::chars_eq_str(kc.as_slice(), key) {
            proof {
                assert(d.skip(i as int)[0] == d[i as int]);
            }
            return Some(&doc[i].1);
        }
        proof {
            assert(d.skip(i as int)[0] == d[i as int]);
            assert(d.skip(i as int).drop_first() =~= d.skip(i + 1));
        }
        i += 1;
    }
    proof {
        assert(d.skip(i as int) =~= Seq::<(Seq<char>, JsonV)>::empty());
    }
    None
}

/// Appends a line `prefix`, the text padded to 41 characters, and `│`.
fn card_field(prefix: &str, t: &String) -> (r: String)
    ensures
        r@ == prefix@ + padded(t@, 41) + "\u{2502}"@,
{
    let mut s = String::from_str(prefix);
    push_padded(&mut s, t, 41);
    s.append("\u{2502}");
    s
}

/// The card of a committed change on a stream, from the change's document
/// (see [`change_card`]).
pub fn mutation_card(stream: &String, doc: &Vec<(String, JsonValue)>) -> (r: Vec<String>)
    ensures
        r@.map_values(|x: String| x@) == change_card(stream@, crate::types::json_entries_view(doc@)),
{
    let ghost d = crate::types::json_entries_view(doc@);
    let status: String = match lookup_exec(doc, "status") {
        Some(JsonValue::String(t)) => t.clone(),
        _ => String::from_str("success"),
    };
    let count: u64 = match lookup_exec(doc, "affected_rows") {
        Some(JsonValue::Int(i)) => if *i >= 0 {
            *i as u64
        } else {
            0
        },
        Some(JsonValue::UInt(u)) => *u,
        _ => 0,
    };
    proof {
        assert(status@ == change_status(d));
        assert(count as nat == change_count(d));
    }
    let count_text = nat_text_exec(count);
    let mut out: Vec<String> = Vec::new();
    out.push(String::from_str("\u{250c}────────────────────────────────────────────────────────\u{2510}"));
    out.push(String::from_str("\u{2502}                 TRANSACTION COMMITTED                  \u{2502}"));
    out.push(String::from_str("\u{251c}────────────────────────────────────────────────────────\u{2524}"));
    out.push(card_field("\u{2502}  Stream Name: ", stream));
    out.push(card_field("\u{2502}  Status:      ", &status));
    out.push(card_field("\u{2502}  Rows Mutated:", &count_text));
    out.push(String::from_str("\u{2514}────────────────────────────────────────────────────────\u{2518}"));
    proof {
        assert(out@.map_values(|x: String| x@) =~= change_card(stream@, d));
    }
    out
}


/// The card listing the streams, or a line saying there are none.
pub open spec fn streams_card(streams: Seq<Seq<char>>) -> Seq<Seq<char>> {
    if streams.len() == 0 {
        seq!["No streams active in the database."@]
    } else {
        seq![
            "\u{250c}─────────────────────────────────────────\u{2510}"@,
            "\u{2502}                 STREAMS                 \u{2502}"@,
            "\u{251c}─────────────────────────────────────────\u{2524}"@,
        ] + streams.map_values(|s: Seq<char>| "\u{2502}  "@ + padded(s, 39) + "\u{2502}"@) + seq![
            "\u{2514}─────────────────────────────────────────\u{2518}"@,
        ]
    }
}

/// The card listing the streams (see [`streams_card`]).
pub fn format_streams_card(streams: &Vec<String>) -> (r: Vec<String>)
    ensures
        r@.map_values(|x: String| x@) == streams_card(streams@.map_values(|s: String| s@)),
{
    let ghost sv = streams@.map_values(|s: String| s@);
    let mut out: Vec<String> = Vec::new();
    if streams.len() == 0 {
        out.push(String::from_str("No streams active in the database."));
        proof {
            assert(out@.map_values(|x: String| x@) =~= streams_card(sv));
        }
        return out;
    }
    out.push(String::from_str("\u{250c}─────────────────────────────────────────\u{2510}"));
    out.push(String::from_str("\u{2502}                 STREAMS                 \u{2502}"));
    out.push(String::from_str("\u{251c}─────────────────────────────────────────\u{2524}"));
    let ghost head = out@.map_values(|x: String| x@);
    let mut i: usize = 0;
    proof {
        assert(head =~= seq![
            "\u{250c}─────────────────────────────────────────\u{2510}"@,
            "\u{2502}                 STREAMS                 \u{2502}"@,
            "\u{251c}─────────────────────────────────────────\u{2524}"@,
        ]);
        assert(out@.map_values(|x: String| x@) =~= head + sv.take(0).map_values(
            |s: Seq<char>| "\u{2502}  "@ + padded(s, 39) + "\u{2502}"@,
        ));
    }
    while i < streams.len()
        invariant
            i <= streams@.len(),
            sv == streams@.map_values(|s: String| s@),
            out@.map_values(|x: String| x@) == head + sv.take(i as int).map_values(
                |s: Seq<char>| "\u{2502}  "@ + padded(s, 39) + "\u{2502}"@,
            ),
        decreases streams.len() - i,
    {
        let mut line = String::from_str("\u{2502}  ");
        push_padded(&mut line, &streams[i], 39);
        line.append("\u{2502}");
        let ghost before = out@.map_values(|x: String| x@);
        out.push(line);
        i += 1;
        proof {
            assert(sv[i - 1] == streams@[i - 1]@);
            assert(out@.map_values(|x: String| x@) =~= before.push("\u{2502}  "@ + padded(sv[i - 1], 39) + "\u{2502}"@));
            assert(sv.take(i as int).map_values(|s: Seq<char>| "\u{2502}  "@ + padded(s, 39) + "\u{2502}"@)
                =~= sv.take(i - 1).map_values(|s: Seq<char>| "\u{2502}  "@ + padded(s, 39) + "\u{2502}"@).push(
                "\u{2502}  "@ + padded(sv[i - 1], 39) + "\u{2502}"@,
            ));
        }
    }
    let ghost body = out@.map_values(|x: String| x@);
    out.push(String::from_str("\u{2514}─────────────────────────────────────────\u{2518}"));
    proof {
        assert(sv.take(i as int) =~= sv);
        assert(out@.map_values(|x: String| x@) =~= body + seq!["\u{2514}─────────────────────────────────────────\u{2518}"@]);
        assert(out@.map_values(|x: String| x@) =~= streams_card(sv));
    }
    out
}


/// Whether every cut of a line's wrapping falls between characters (see
/// [`wrap_ok`]).
fn line_wraps(line: Vec<char>) -> (r: bool)
    ensures
        r == wrap_ok(line@),
{
    let mut rem = line;
    while rem.len() > 0
        invariant
            wrap_ok(rem@) == wrap_ok(line@),
        decreases rem.len(),
    {
        let ghost r0 = rem@;
        let (k1, b1) = scan_bytes(rem.as_slice(), 71);
        if k1 == rem.len() && b1 <= 70 {
            proof {
                assert(r0.take(r0.len() as int) =~= r0);
            }
            return true;
        }
        proof {
            lemma_blen_prefix(r0, k1 as int, r0.len() as int);
            assert(r0.take(r0.len() as int) =~= r0);
        }
        let (c, b) = scan_bytes(rem.as_slice(), 70);
        proof {
            lemma_cut_chars_skip(r0, 70, 0, c as int);
            lemma_blen_prefix(r0, c as int, r0.len() as int);
            lemma_cut_chars(r0, 70, 0);
        }
        if b != 70 {
            proof {
                assert(chars_within(r0, 70) == -1);
            }
            return false;
        }
        proof {
            assert(r0.take(0) =~= Seq::<char>::empty());
            lemma_blen_push(Seq::<char>::empty(), 'a');
            assert(c > 0);
            assert(chars_within(r0, 70) > 0);
            lemma_cut_at(r0);
        }
        let mut j = c;
        while j > 0 && rem[j - 1] != ' '
            invariant
                j <= c <= rem@.len(),
                rem@ == r0,
                last_space(r0, j as int) == last_space(r0, c as int),
            decreases j,
        {
            j -= 1;
        }
        let mut k = c;
        if j > 0 {
            proof {
                lemma_blen_prefix(r0, j - 1, c as int);
            }
            let sb = prefix_bytes(rem.as_slice(), j - 1);
            if sb > 30 {
                k = j - 1;
            }
        }
        proof {
            assert(k as int == cut_at(r0));
            lemma_trim_start_len(r0.skip(k as int));
        }
        rem = trimmed_rest(rem.as_slice(), k);
    }
    true
}

/// Whether the error card of a message can be made: every cut of its long
/// lines falls between characters (see [`lines_wrap_ok`]).
pub fn error_card_wraps(err_msg: &str) -> (r: bool)
    ensures
        r == lines_wrap_ok(err_msg@, 0),
{
    let v = chars_of(err_msg);
    let mut i: usize = 0;
    while i < v.len()
        invariant
            i <= v@.len(),
            v@ == err_msg@,
            lines_wrap_ok(v@, i as int) == lines_wrap_ok(v@, 0),
        decreases v.len() - i,
    {
        let mut e = i;
        while e < v.len() && v[e] != '\n'
            invariant
                i <= e <= v@.len(),
                line_end(v@, e as int) == line_end(v@, i as int),
            decreases v.len() - e,
        {
            e += 1;
        }
        proof {
            lemma_line_end(v@, i as int);
        }
        if e < v.len() {
            let mut end = e;
            if end > i && v[end - 1] == '\r' {
                end = end - 1;
            }
            let line = copy_range(v.as_slice(), i, end);
            proof {
                assert(strip_cr(v@.subrange(i as int, e as int)) =~= line@);
            }
            if !line_wraps(line) {
                return false;
            }
            i = e + 1;
        } else {
            let line = copy_range(v.as_slice(), i, e);
            return line_wraps(line);
        }
    }
    true
}

} // verus!
