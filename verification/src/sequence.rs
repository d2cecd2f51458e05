//! The `sequence` stage: records ordered by timestamp (a stable order) are
//! fed one by one to the sequence matcher, and the records that complete
//! the sequence come out. Whether a record satisfies a step is decided by
//! the step's filter and handed in.
use crate::executor::SequenceMatcher;
use crate::types::{FilterExpr, Record};
use vstd::prelude::*;

verus! {

/// `x` placed into `s` after every record whose timestamp is not later.
pub open spec fn insert_by_time(s: Seq<Record>, x: Record) -> Seq<Record>
    decreases s.len(),
{
    if s.len() == 0 {
        seq![x]
    } else if s.last().timestamp <= x.timestamp {
        s.push(x)
    } else {
        insert_by_time(s.drop_last(), x).push(s.last())
    }
}

/// The records in ascending order of timestamp, records with equal
/// timestamps in their given order (a stable sort).
pub open spec fn sorted_by_time(s: Seq<Record>) -> Seq<Record>
    decreases s.len(),
{
    if s.len() == 0 {
        Seq::empty()
    } else {
        insert_by_time(sorted_by_time(s.drop_last()), s.last())
    }
}

proof fn lemma_insert_split(s: Seq<Record>, x: Record, k: int)
    requires
        0 <= k <= s.len(),
        forall|j: int| k <= j < s.len() ==> (#[trigger] s[j]).timestamp > x.timestamp,
    ensures
        insert_by_time(s, x) == insert_by_time(s.take(k), x) + s.skip(k),
    decreases s.len() - k,
{
    if k == s.len() {
        assert(s.take(k) =~= s);
        assert(s.skip(k) =~= Seq::<Record>::empty());
        assert(insert_by_time(s, x) + s.skip(k) =~= insert_by_time(s, x));
    } else {
        let p = s.drop_last();
        assert(s.last() == s[s.len() - 1]);
        assert forall|j: int| k <= j < p.len() implies (#[trigger] p[j]).timestamp > x.timestamp by {
            assert(p[j] == s[j]);
        }
        lemma_insert_split(p, x, k);
        assert(p.take(k) =~= s.take(k));
        assert(s.skip(k) =~= p.skip(k).push(s.last()));
        assert(insert_by_time(s, x) =~= (insert_by_time(s.take(k), x) + p.skip(k)).push(s.last()));
    }
}

/// Sorts records by timestamp, keeping the order of records with equal
/// timestamps (see [`sorted_by_time`]).
pub fn sort_by_timestamp(records: Vec<Record>) -> (r: Vec<Record>)
    ensures
        r@ == sorted_by_time(records@),
{
    let ghost rs = records@;
    let n = records.len();
    let mut src = records;
    let mut rev: Vec<Record> = Vec::new();
    while src.len() > 0
        invariant
            src@.len() + rev@.len() == n == rs.len(),
            src@ == rs.subrange(0, src@.len() as int),
            forall|t: int| 0 <= t < rev@.len() ==> #[trigger] rev@[t] == rs[n - 1 - t],
        decreases src@.len(),
    {
        let x = src.pop().unwrap();
        rev.push(x);
    }
    let mut out: Vec<Record> = Vec::new();
    let mut i: usize = 0;
    assert(rs.take(0) =~= Seq::<Record>::empty());
    while i < n
        invariant
            i <= n == rs.len(),
            rev@.len() == n - i,
            forall|t: int| 0 <= t < rev@.len() ==> #[trigger] rev@[t] == rs[n - 1 - t],
            out@ == sorted_by_time(rs.take(i as int)),
        decreases n - i,
    {
        let x = rev.pop().unwrap();
        let mut j = out.len();
        while j > 0 && out[j - 1].timestamp > x.timestamp
            invariant
                j <= out@.len(),
                forall|t: int| j <= t < out@.len() ==> (#[trigger] out@[t]).timestamp > x.timestamp,
            decreases j,
        {
            j -= 1;
        }
        proof {
            lemma_insert_split(out@, x, j as int);
            let pre = out@.take(j as int);
            if j > 0 {
                assert(pre.last() == out@[j - 1]);
            }
            assert(insert_by_time(pre, x) =~= pre.push(x));
            assert(out@.insert(j as int, x) =~= pre.push(x) + out@.skip(j as int));
            assert(x == rs[i as int]);
            assert(rs.take(i + 1).drop_last() =~= rs.take(i as int));
            assert(rs.take(i + 1).last() == rs[i as int]);
        }
        out.insert(j, x);
        i += 1;
    }
    assert(rs.take(n as int) =~= rs);
    out
}

/// The matcher's state: the current step, when the attempt started, and the
/// records matched so far.
pub type MatchState = (nat, i64, Seq<Record>);

/// The matcher's state after a record and what it gives (see
/// [`SequenceMatcher::process`]): `first` and `current` tell whether the
/// record satisfies the first and the current step.
pub open spec fn next_state(st: MatchState, r: Record, first: bool, current: bool, n: nat, within: u64) -> (
    MatchState,
    Option<Record>,
) {
    if st.0 == 0 {
        if first {
            if n == 1 {
                ((0, 0, Seq::empty()), Some(r))
            } else {
                ((1, r.timestamp, seq![r]), None)
            }
        } else {
            (st, None)
        }
    } else if r.timestamp - st.1 > within as i64 {
        if first {
            ((1, r.timestamp, seq![r]), None)
        } else {
            ((0, 0, Seq::empty()), None)
        }
    } else if current {
        if st.0 + 1 >= n {
            ((0, 0, Seq::empty()), Some(r))
        } else {
            ((st.0 + 1, st.1, st.2.push(r)), None)
        }
    } else {
        (st, None)
    }
}

/// The state and the completed records after feeding the records in order;
/// `outcomes[i][j]` tells whether record `i` satisfies step `j`.
pub open spec fn run_matcher(rs: Seq<Record>, outcomes: Seq<Seq<bool>>, n: nat, within: u64) -> (MatchState, Seq<Record>)
    decreases rs.len(),
{
    if rs.len() == 0 {
        ((0, 0, Seq::empty()), Seq::empty())
    } else {
        let (st, out) = run_matcher(rs.drop_last(), outcomes, n, within);
        let k = rs.len() - 1;
        let (st2, o) = next_state(st, rs.last(), outcomes[k][0], outcomes[k][st.0 as int], n, within);
        (
            st2,
            match o {
                Some(r) => out.push(r),
                None => out,
            },
        )
    }
}

/// Whether feeding the records never compares a timestamp with the
/// attempt's start across more than `i64` can hold (the matcher would
/// overflow there).
pub open spec fn run_fits(rs: Seq<Record>, outcomes: Seq<Seq<bool>>, n: nat, within: u64) -> bool
    decreases rs.len(),
{
    if rs.len() == 0 {
        true
    } else {
        let st = run_matcher(rs.drop_last(), outcomes, n, within).0;
        run_fits(rs.drop_last(), outcomes, n, within) && (st.0 > 0 ==> i64::MIN <= rs.last().timestamp - st.1
            <= i64::MAX)
    }
}

/// The records that complete the sequence, the records being fed in their
/// given order (see [`run_matcher`]); `outcomes` holds, for each record,
/// whether it satisfies each step. None when the matcher would have to
/// compare timestamps further apart than `i64` holds (see [`run_fits`]).
pub fn sequence_matches(records: Vec<Record>, steps: Vec<FilterExpr>, within_ms: u64, outcomes: &Vec<Vec<bool>>) -> (r:
    Option<Vec<Record>>)
    requires
        steps@.len() > 0,
        outcomes@.len() == records@.len(),
        forall|i: int| 0 <= i < outcomes@.len() ==> (#[trigger] outcomes@[i])@.len() == steps@.len(),
    ensures
        run_fits(records@, outcomes@.map_values(|v: Vec<bool>| v@), steps@.len(), within_ms) ==> (r matches Some(
            v) && v@ == run_matcher(records@, outcomes@.map_values(|v: Vec<bool>| v@), steps@.len(), within_ms).1),
        !run_fits(records@, outcomes@.map_values(|v: Vec<bool>| v@), steps@.len(), within_ms) ==> r is None,
{
    let ghost rs = records@;
    let ghost os = outcomes@.map_values(|v: Vec<bool>| v@);
    let ghost n = steps@.len();
    let len = records.len();
    let mut src = records;
    let mut rev: Vec<Record> = Vec::new();
    while src.len() > 0
        invariant
            src@.len() + rev@.len() == len == rs.len(),
            src@ == rs.subrange(0, src@.len() as int),
            forall|t: int| 0 <= t < rev@.len() ==> #[trigger] rev@[t] == rs[len - 1 - t],
        decreases src@.len(),
    {
        let x = src.pop().unwrap();
        rev.push(x);
    }
    let mut m = SequenceMatcher::new(steps, within_ms);
    let mut out: Vec<Record> = Vec::new();
    let mut i: usize = 0;
    assert(rs.take(0) =~= Seq::<Record>::empty());
    while i < len
        invariant
            i <= len == rs.len() == os.len(),
            rs == records@,
            n == steps@.len(),
            n > 0,
            m.wf(),
            m.n_steps() == n,
            m.within() == within_ms,
            rev@.len() == len - i,
            forall|t: int| 0 <= t < rev@.len() ==> #[trigger] rev@[t] == rs[len - 1 - t],
            forall|t: int| 0 <= t < os.len() ==> (#[trigger] os[t]).len() == n,
            os == outcomes@.map_values(|v: Vec<bool>| v@),
            run_fits(rs.take(i as int), os, n, within_ms),
            (m.step() as nat, m.window_start(), m.partial()) == run_matcher(rs.take(i as int), os, n, within_ms).0,
            out@ == run_matcher(rs.take(i as int), os, n, within_ms).1,
        decreases len - i,
    {
        let x = rev.pop().unwrap();
        proof {
            assert(x == rs[i as int]);
            assert(rs.take(i + 1).drop_last() =~= rs.take(i as int));
            assert(rs.take(i + 1).last() == rs[i as int]);
            assert(os[i as int] == outcomes@[i as int]@);
        }
        proof {
            m.lemma_wf_step();
        }
        let step = m.current_step();
        if step > 0 {
            let ws = m.window_start_ms();
            let d: i128 = x.timestamp as i128 - ws as i128;
            if d < i64::MIN as i128 || d > i64::MAX as i128 {
                proof {
                    let t = rs.take(i + 1);
                    assert(t.drop_last() =~= rs.take(i as int));
                    assert(t.last() == x);
                    assert(run_matcher(t.drop_last(), os, n, within_ms).0.0 > 0);
                    assert(run_matcher(t.drop_last(), os, n, within_ms).0.1 == ws);
                    assert(!run_fits(t, os, n, within_ms));
                    lemma_run_fits_prefix_fails(rs, os, n, within_ms, i + 1);
                }
                return None;
            }
        }
        let first = outcomes[i][0];
        let current = outcomes[i][step];
        let done = m.process(x, first, current);
        if let Some(d) = done {
            out.push(d);
        }
        i += 1;
    }
    proof {
        assert(rs.take(len as int) =~= rs);
    }
    Some(out)
}

proof fn lemma_run_fits_prefix_fails(rs: Seq<Record>, os: Seq<Seq<bool>>, n: nat, within: u64, k: int)
    requires
        0 <= k <= rs.len(),
        !run_fits(rs.take(k), os, n, within),
    ensures
        !run_fits(rs, os, n, within),
    decreases rs.len() - k,
{
    if k < rs.len() {
        assert(rs.drop_last().take(k) =~= rs.take(k));
        lemma_run_fits_prefix_fails(rs.drop_last(), os, n, within, k);
    } else {
        assert(rs.take(k) =~= rs);
    }
}

} // verus!
