//! Text helpers of the interactive shell: cell truncation, table borders
//! and editing the input line.
use vstd::prelude::*;
use vstd::string::{StringExecFns, StringSliceAdditionalSpecFns};
use vstd::utf8::{encode_utf8, is_char_boundary};

verus! {

/// A cell cut to `keep` bytes and `...` when it is longer than `max` bytes.
pub open spec fn cut_cell(b: Seq<u8>, max: int, keep: int) -> Seq<u8> {
    if b.len() > max {
        b.subrange(0, keep) + seq![46u8, 46u8, 46u8]
    } else {
        b
    }
}

fn cut_text(s: &str, max: usize, keep: usize) -> (r: String)
    requires
        keep <= max,
        s.spec_bytes().len() > max ==> is_char_boundary(s.spec_bytes(), keep as int),
    ensures
        encode_utf8(r@) == cut_cell(s.spec_bytes(), max as int, keep as int),
{
    proof {
        reveal_strlit("...");
        vstd::string::is_ascii_spec_bytes("...");
        assert(vstd::string::is_ascii("..."));
    }
    if s.as_bytes().len() > max {
        let (head, _) = s.split_at(keep);
        let mut out = crate::text::owned(head);
        out.append("...");
        proof {
            crate::text::lemma_encode_utf8_concat(head@, "..."@);
            assert("...".spec_bytes() =~= seq![46u8, 46u8, 46u8]);
        }
        out
    } else {
        crate::text::owned(s)
    }
}

/// A value cell: at most 100 bytes, else its first 97 bytes and `...`.
/// The cut must fall between characters.
pub fn format_value_cell(s: &str) -> (r: String)
    requires
        s.spec_bytes().len() > 100 ==> is_char_boundary(s.spec_bytes(), 97),
    ensures
        encode_utf8(r@) == cut_cell(s.spec_bytes(), 100, 97),
{
    cut_text(s, 100, 97)
}

/// A table cell: at most 40 bytes, else its first 37 bytes and `...`. The
/// cut must fall between characters.
pub fn format_cell(s: &str) -> (r: String)
    requires
        s.spec_bytes().len() > 40 ==> is_char_boundary(s.spec_bytes(), 37),
    ensures
        encode_utf8(r@) == cut_cell(s.spec_bytes(), 40, 37),
{
    cut_text(s, 40, 37)
}

/// `n` horizontal box-drawing characters.
pub open spec fn rule(n: nat) -> Seq<char> {
    Seq::new(n, |i: int| '\u{2500}')
}

/// The inner part of a border: for each column a rule two wider than the
/// column, with `middle` between columns.
pub open spec fn border_inner(middle: char, widths: Seq<usize>) -> Seq<char>
    decreases widths.len(),
{
    if widths.len() == 0 {
        Seq::empty()
    } else {
        let prev = border_inner(middle, widths.drop_last());
        (if widths.len() > 1 {
            prev.push(middle)
        } else {
            prev
        }) + rule((widths.last() + 2) as nat)
    }
}

/// A border line of a table with the given column widths.
pub fn build_border_line(left: char, middle: char, right: char, widths: &[usize]) -> (r: String)
    requires
        forall|i: int| 0 <= i < widths@.len() ==> widths@[i] + 2 <= usize::MAX,
    ensures
        r@ == seq![left] + border_inner(middle, widths@) + seq![right],
{
    let mut s = String::new();
    crate::text::string_push(&mut s, left);
    let mut i: usize = 0;
    assert(widths@.take(0) =~= Seq::<usize>::empty());
    while i < widths.len()
        invariant
            i <= widths@.len(),
            forall|k: int| 0 <= k < widths@.len() ==> widths@[k] + 2 <= usize::MAX,
            s@ == seq![left] + border_inner(middle, widths@.take(i as int)),
        decreases widths.len() - i,
    {
        let ghost before = s@;
        if i > 0 {
            crate::text::string_push(&mut s, middle);
        }
        let n = widths[i] + 2;
        let mut k: usize = 0;
        let ghost mid = s@;
        while k < n
            invariant
                k <= n,
                s@ == mid + rule(k as nat),
            decreases n - k,
        {
            crate::text::string_push(&mut s, '\u{2500}');
            k += 1;
            assert(s@ =~= mid + rule(k as nat));
        }
        proof {
            let t = widths@.take(i + 1);
            assert(t.drop_last() =~= widths@.take(i as int));
            assert(t.last() == widths@[i as int]);
            assert(s@ =~= seq![left] + border_inner(middle, t));
        }
        i += 1;
    }
    assert(widths@.take(widths@.len() as int) =~= widths@);
    crate::text::string_push(&mut s, right);
    assert(s@ =~= seq![left] + border_inner(middle, widths@) + seq![right]);
    s
}

/// The text with `c` inserted before character `idx`, or appended when
/// `idx` is past the end.
pub open spec fn inserted(s: Seq<char>, idx: int, c: char) -> Seq<char> {
    if idx < s.len() {
        s.insert(idx, c)
    } else {
        s.push(c)
    }
}

/// A backspace just after an inserted character takes it out again.
pub proof fn lemma_insert_then_backspace(s: Seq<char>, idx: int, c: char)
    requires
        0 <= idx <= s.len(),
    ensures
        removed_before(inserted(s, idx, c), idx + 1) == s,
{
    if idx < s.len() {
        assert(s.insert(idx, c).remove(idx) =~= s);
    } else {
        assert(s.push(c).remove(idx) =~= s);
    }
}

/// Inserts a character at a character position of the input line.
pub fn insert_char_at(s: &mut String, idx: usize, c: char)
    ensures
        final(s)@ == inserted(old(s)@, idx as int, c),
{
    let v = crate::text::chars_of(s.as_str());
    let mut result = String::new();
    let mut inserted_yet = false;
    let mut i: usize = 0;
    while i < v.len()
        invariant
            i <= v@.len(),
            inserted_yet == (idx < i),
            result@ == (if idx < i {
                v@.take(idx as int).push(c) + v@.subrange(idx as int, i as int)
            } else {
                v@.take(i as int)
            }),
        decreases v.len() - i,
    {
        let ghost before = result@;
        if i == idx {
            crate::text::string_push(&mut result, c);
            inserted_yet = true;
        }
        crate::text::string_push(&mut result, v[i]);
        i += 1;
        proof {
            if idx < i {
                assert(result@ =~= v@.take(idx as int).push(c) + v@.subrange(idx as int, i as int));
            } else {
                assert(result@ =~= v@.take(i as int));
            }
        }
    }
    if !inserted_yet {
        crate::text::string_push(&mut result, c);
    }
    proof {
        assert(v@.take(v@.len() as int) =~= v@);
        if idx < v@.len() {
            assert(result@ =~= v@.insert(idx as int, c));
        }
    }
    *s = result;
}

/// The text without character `idx - 1`; unchanged when `idx` is 0.
pub open spec fn removed_before(s: Seq<char>, idx: int) -> Seq<char> {
    if idx == 0 || idx > s.len() {
        s
    } else {
        s.remove(idx - 1)
    }
}

/// Removes the character before a character position of the input line
/// (a backspace).
pub fn remove_char_at(s: &mut String, idx: usize)
    ensures
        final(s)@ == removed_before(old(s)@, idx as int),
{
    if idx == 0 {
        return;
    }
    let v = crate::text::chars_of(s.as_str());
    let mut result = String::new();
    let mut i: usize = 0;
    while i < v.len()
        invariant
            i <= v@.len(),
            idx > 0,
            result@ == (if i < idx {
                v@.take(i as int)
            } else {
                v@.take(idx - 1) + v@.subrange(idx as int, i as int)
            }),
        decreases v.len() - i,
    {
        if i != idx - 1 {
            crate::text::string_push(&mut result, v[i]);
        }
        i += 1;
        proof {
            if i < idx {
                assert(result@ =~= v@.take(i as int));
            } else {
                assert(result@ =~= v@.take(idx - 1) + v@.subrange(idx as int, i as int));
            }
        }
    }
    proof {
        assert(v@.take(v@.len() as int) =~= v@);
        if idx <= v@.len() {
            assert(result@ =~= v@.remove(idx - 1));
        }
    }
    *s = result;
}

} // verus!
