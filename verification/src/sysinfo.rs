//! Sizing of the in-memory index from the machine's memory.
use vstd::prelude::*;
use crate::text::is_space;

verus! {

/// A quarter of the machine's memory, kept between 32 MB and 4096 MB.
pub open spec fn spec_auto_budget(system_ram_mb: u64) -> u64 {
    let q = system_ram_mb / 4;
    if q < 32 {
        32
    } else if q > 4096 {
        4096
    } else {
        q
    }
}

/// Index RAM budget in MB for a machine with the given memory in MB.
pub fn calculate_auto_budget(system_ram_mb: u64) -> (b: u64)
    ensures
        b == spec_auto_budget(system_ram_mb),
        32 <= b <= 4096,
{
    let budget = system_ram_mb / 4;
    if budget < 32 {
        32
    } else if budget > 4096 {
        4096
    } else {
        budget
    }
}

/// Number of keys that fit in a budget of `budget_mb` MB at 84 bytes per
/// key, rounded up to a whole key.
pub fn estimate_key_capacity(budget_mb: u64) -> (c: u64)
    requires
        budget_mb * 1048576 + 83 <= u64::MAX,
    ensures
        c == (budget_mb * 1048576 + 83) / 84,
{
    (budget_mb * 1024 * 1024 + 83) / 84
}


/// The position after the whitespace (Unicode `White_Space`) from `i` on.
pub open spec fn skip_space(s: Seq<char>, i: int) -> int
    decreases s.len() - i,
{
    if 0 <= i < s.len() && crate::text::is_unicode_whitespace(s[i]) {
        skip_space(s, i + 1)
    } else {
        i
    }
}

/// The position after the non-whitespace characters from `i` on.
pub open spec fn skip_word(s: Seq<char>, i: int) -> int
    decreases s.len() - i,
{
    if 0 <= i < s.len() && !crate::text::is_unicode_whitespace(s[i]) {
        skip_word(s, i + 1)
    } else {
        i
    }
}

/// The end of the line that starts at `i` (the next `\n`, or the end).
pub open spec fn line_end(s: Seq<char>, i: int) -> int
    decreases s.len() - i,
{
    if 0 <= i < s.len() && s[i] != '\n' {
        line_end(s, i + 1)
    } else {
        i
    }
}

/// Whether the text reads as a `u64` (std `u64::from_str`): an optional `+`,
/// then ASCII digits whose value fits.
pub open spec fn is_u64_text(t: Seq<char>) -> bool {
    let a = if t.len() > 0 && t[0] == '+' {
        1int
    } else {
        0int
    };
    t.len() > a && crate::parser::digits_end(t, a) == t.len() && crate::parser::digits_value(t, a, t.len() as int)
        <= u64::MAX
}

/// The value of such a text.
pub open spec fn u64_of_text(t: Seq<char>) -> u64 {
    let a = if t.len() > 0 && t[0] == '+' {
        1int
    } else {
        0int
    };
    crate::parser::digits_value(t, a, t.len() as int) as u64
}

/// The total memory in MB that a line `MemTotal: <kB> ...` gives: its second
/// whitespace-separated word read as kB, divided by 1024.
pub open spec fn memtotal_of_line(line: Seq<char>) -> Option<u64> {
    let a1 = skip_space(line, 0);
    let b1 = skip_word(line, a1);
    let a2 = skip_space(line, b1);
    let b2 = skip_word(line, a2);
    if a2 < b2 && is_u64_text(line.subrange(a2, b2)) {
        Some(u64_of_text(line.subrange(a2, b2)) / 1024)
    } else {
        None
    }
}

/// The machine's memory from the text of `/proc/meminfo`, scanning lines from
/// `i`: the first line that starts with `MemTotal:` decides.
pub open spec fn memtotal_from(s: Seq<char>, i: int) -> Option<u64>
    decreases s.len() - i,
{
    if i < 0 || i >= s.len() {
        None
    } else {
        let e = line_end(s, i);
        if crate::parser::has_lit(s.subrange(i, e), 0, "MemTotal:"@) {
            memtotal_of_line(s.subrange(i, e))
        } else if e >= s.len() || e < i {
            None
        } else {
            memtotal_from(s, e + 1)
        }
    }
}

/// A line ends at or after its start and within the text.
pub proof fn lemma_line_end(s: Seq<char>, i: int)
    requires
        0 <= i <= s.len(),
    ensures
        i <= line_end(s, i) <= s.len(),
    decreases s.len() - i,
{
    if i < s.len() && s[i] != '\n' {
        lemma_line_end(s, i + 1);
    }
}

fn memtotal_of_line_exec(line: &[char]) -> (r: Option<u64>)
    ensures
        r == memtotal_of_line(line@),
{
    let mut a1: usize = 0;
    while a1 < line.len() && is_space(line[a1])
        invariant
            a1 <= line@.len(),
            skip_space(line@, 0) == skip_space(line@, a1 as int),
        decreases line.len() - a1,
    {
        a1 += 1;
    }
    let mut b1 = a1;
    while b1 < line.len() && !is_space(line[b1])
        invariant
            a1 <= b1 <= line@.len(),
            skip_word(line@, a1 as int) == skip_word(line@, b1 as int),
        decreases line.len() - b1,
    {
        b1 += 1;
    }
    let mut a2 = b1;
    while a2 < line.len() && is_space(line[a2])
        invariant
            b1 <= a2 <= line@.len(),
            skip_space(line@, b1 as int) == skip_space(line@, a2 as int),
        decreases line.len() - a2,
    {
        a2 += 1;
    }
    let mut b2 = a2;
    while b2 < line.len() && !is_space(line[b2])
        invariant
            a2 <= b2 <= line@.len(),
            skip_word(line@, a2 as int) == skip_word(line@, b2 as int),
        decreases line.len() - b2,
    {
        b2 += 1;
    }
    if a2 >= b2 {
        return None;
    }
    let w = vstd::slice::slice_subrange(line, a2, b2);
    let a: usize = if w[0] == '+' {
        1
    } else {
        0
    };
    if w.len() <= a {
        return None;
    }
    if crate::parser::digits_end_exec(w, a) != w.len() {
        return None;
    }
    match crate::parser::digits_value_exec(w, a, w.len()) {
        Some(kb) => Some(kb / 1024),
        None => None,
    }
}

/// The machine's total memory in MB from the text of `/proc/meminfo`, or
/// `None` when no `MemTotal:` line gives a readable number of kB.
pub fn detect_system_ram_mb(meminfo: &str) -> (r: Option<u64>)
    ensures
        r == memtotal_from(meminfo@, 0),
{
    proof {
        reveal_strlit("MemTotal:");
    }
    let s = crate::text::chars_of(meminfo);
    let len = s.len();
    let mut i: usize = 0;
    while i < len
        invariant
            i <= len == s@.len(),
            s@ == meminfo@,
            memtotal_from(meminfo@, 0) == memtotal_from(s@, i as int),
        decreases len - i,
    {
        let mut e = i;
        while e < len && s[e] != '\n'
            invariant
                i <= e <= len == s@.len(),
                line_end(s@, i as int) == line_end(s@, e as int),
            decreases len - e,
        {
            e += 1;
        }
        let line = vstd::slice::slice_subrange(s.as_slice(), i, e);
        if crate::parser::has_lit_exec(line, 0, "MemTotal:") {
            return memtotal_of_line_exec(line);
        }
        if e >= len {
            return None;
        }
        i = e + 1;
    }
    None
}

} // verus!
