//! The `window` stage: records fall into fixed-length time buckets, each
//! bucket becomes one record. Buckets are keyed by their start, the
//! timestamp rounded toward zero to a multiple of the duration.
use crate::parser::{int_text, nat_text};
use crate::types::{spec_type_tag, DataValue, Record};
use std::collections::BTreeMap;
use vstd::prelude::*;
use vstd::string::StringSliceAdditionalSpecFns;
use vstd::utf8::{encode_utf8, is_ascii_chars};

verus! {

/// Integer division rounding toward zero (Rust's `/` on signed integers).
pub open spec fn trunc_div(a: int, b: int) -> int {
    let q = (if a >= 0 {
        a
    } else {
        -a
    }) / (if b >= 0 {
        b
    } else {
        -b
    });
    if (a >= 0) == (b >= 0) {
        q
    } else {
        -q
    }
}

/// The duration as the signed divisor that the engine uses (`as i64`).
pub open spec fn divisor(duration_ms: u64) -> int {
    if duration_ms <= i64::MAX {
        duration_ms as int
    } else {
        duration_ms - 0x1_0000_0000_0000_0000
    }
}

/// The start of the bucket of a timestamp.
pub open spec fn window_start(ts: i64, duration_ms: u64) -> int {
    trunc_div(ts as int, divisor(duration_ms)) * divisor(duration_ms)
}

/// A bucket starts at a multiple of the duration, at or before a
/// non-negative timestamp and less than one duration before it; a negative
/// timestamp rounds toward zero, so its bucket starts at or after it and
/// less than one duration after it.
pub proof fn lemma_window_start_bounds(ts: i64, duration_ms: u64)
    requires
        0 < duration_ms <= i64::MAX,
    ensures
        window_start(ts, duration_ms) % (duration_ms as int) == 0,
        ts >= 0 ==> 0 <= window_start(ts, duration_ms) <= ts && ts - window_start(ts, duration_ms) < duration_ms,
        ts < 0 ==> ts <= window_start(ts, duration_ms) <= 0 && window_start(ts, duration_ms) - ts < duration_ms,
{
    let d = duration_ms as int;
    let a: int = if ts >= 0 { ts as int } else { -(ts as int) };
    let q = a / d;
    assert(0 <= a - q * d < d) by (nonlinear_arith)
        requires
            q == a / d,
            d > 0,
            a >= 0,
    ;
    assert(q >= 0) by (nonlinear_arith)
        requires
            q == a / d,
            d > 0,
            a >= 0,
    ;
    assert((q * d) % d == 0) by (nonlinear_arith)
        requires
            d > 0,
    ;
    assert((-q * d) % d == 0) by (nonlinear_arith)
        requires
            d > 0,
    ;
    assert(-q * d == -(q * d)) by (nonlinear_arith);
}

/// Whether bucketing a timestamp fails: a zero duration, or the one
/// division that overflows.
pub open spec fn window_fails(ts: i64, duration_ms: u64) -> bool {
    duration_ms == 0 || (duration_ms == u64::MAX && ts == i64::MIN)
}

/// The start of the bucket of a timestamp (see [`window_start`]).
pub fn window_start_of(ts: i64, duration_ms: u64) -> (r: i64)
    requires
        !window_fails(ts, duration_ms),
    ensures
        r == window_start(ts, duration_ms),
{
    let d: i128 = if duration_ms <= i64::MAX as u64 {
        duration_ms as i128
    } else {
        duration_ms as i128 - 0x1_0000_0000_0000_0000i128
    };
    let a: u128 = if ts >= 0 {
        ts as u128
    } else {
        (0i128 - ts as i128) as u128
    };
    let b: u128 = if d >= 0 {
        d as u128
    } else {
        (0i128 - d) as u128
    };
    let q: u128 = a / b;
    assert(q * b <= a) by (nonlinear_arith)
        requires
            q == a / b,
            b > 0,
    ;
    assert(q <= a) by (nonlinear_arith)
        requires
            q == a / b,
            b > 0,
    ;
    let qs: i128 = if (ts >= 0) == (d >= 0) {
        q as i128
    } else {
        0i128 - q as i128
    };
    assert(qs * d == if ts >= 0 { q * b } else { 0 - q * b }) by (nonlinear_arith)
        requires
            qs == (if (ts >= 0) == (d >= 0) { q as int } else { -q }),
            b == (if d >= 0 { d as int } else { -d }),
    ;
    let s: i128 = qs * d;
    assert(trunc_div(ts as int, d as int) == qs);
    if ts == i64::MIN && d == -1 {
        assert(false);
    }
    assert(-0x8000_0000_0000_0000 <= s <= 0x7fff_ffff_ffff_ffff) by (nonlinear_arith)
        requires
            s == (if ts >= 0 { q * b } else { 0 - q * b }),
            q * b <= a,
            a == (if ts >= 0 { ts as int } else { -ts }),
            -0x8000_0000_0000_0000 <= ts <= 0x7fff_ffff_ffff_ffff,
    ;
    s as i64
}

/// The records of `rs` whose bucket starts at `start`, in order.
pub open spec fn in_window(rs: Seq<Record>, duration_ms: u64, start: int) -> Seq<Record>
    decreases rs.len(),
{
    if rs.len() == 0 {
        Seq::empty()
    } else if window_start(rs.last().timestamp, duration_ms) == start {
        in_window(rs.drop_last(), duration_ms, start).push(rs.last())
    } else {
        in_window(rs.drop_last(), duration_ms, start)
    }
}

/// Whether the groups are the buckets of `rs`: in ascending order of start,
/// each non-empty and holding its records in their order, and every record
/// in one of them.
pub open spec fn are_buckets(rs: Seq<Record>, duration_ms: u64, gs: Seq<(i64, Seq<Record>)>) -> bool {
    &&& forall|i: int, j: int| 0 <= i < j < gs.len() ==> #[trigger] gs[i].0 < #[trigger] gs[j].0
    &&& forall|i: int| 0 <= i < gs.len() ==> #[trigger] gs[i].1 == in_window(rs, duration_ms, gs[i].0 as int) && gs[i].1.len() > 0
    &&& forall|k: int| 0 <= k < rs.len() ==> #[trigger] has_bucket(gs, rs[k].timestamp, duration_ms)
}

/// Whether one of the groups is the bucket of a timestamp.
pub open spec fn has_bucket(gs: Seq<(i64, Seq<Record>)>, ts: i64, duration_ms: u64) -> bool {
    exists|i: int| 0 <= i < gs.len() && #[trigger] gs[i].0 == window_start(ts, duration_ms)
}

/// The number of records over all the groups.
pub open spec fn group_total(gs: Seq<(i64, Seq<Record>)>) -> int
    decreases gs.len(),
{
    if gs.len() == 0 {
        0
    } else {
        group_total(gs.drop_last()) + gs.last().1.len()
    }
}

/// The records of `rs` in the buckets that start at `starts`, counted.
pub open spec fn count_in(rs: Seq<Record>, duration_ms: u64, starts: Seq<i64>) -> int
    decreases starts.len(),
{
    if starts.len() == 0 {
        0
    } else {
        count_in(rs, duration_ms, starts.drop_last()) + in_window(rs, duration_ms, starts.last() as int).len()
    }
}

/// How many of `starts` equal `v`.
pub open spec fn hits(starts: Seq<i64>, v: int) -> int
    decreases starts.len(),
{
    if starts.len() == 0 {
        0
    } else {
        hits(starts.drop_last(), v) + if starts.last() == v {
            1int
        } else {
            0int
        }
    }
}

proof fn lemma_count_in_push(rs: Seq<Record>, x: Record, duration_ms: u64, starts: Seq<i64>)
    ensures
        count_in(rs.push(x), duration_ms, starts) == count_in(rs, duration_ms, starts) + hits(
            starts,
            window_start(x.timestamp, duration_ms) as int,
        ),
    decreases starts.len(),
{
    if starts.len() > 0 {
        lemma_count_in_push(rs, x, duration_ms, starts.drop_last());
        lemma_in_window_push(rs, x, duration_ms, starts.last() as int);
    }
}

proof fn lemma_count_in_empty(duration_ms: u64, starts: Seq<i64>)
    ensures
        count_in(Seq::<Record>::empty(), duration_ms, starts) == 0,
    decreases starts.len(),
{
    if starts.len() > 0 {
        lemma_count_in_empty(duration_ms, starts.drop_last());
    }
}

proof fn lemma_hits_once(starts: Seq<i64>, v: int)
    requires
        forall|i: int, j: int| 0 <= i < j < starts.len() ==> #[trigger] starts[i] < #[trigger] starts[j],
    ensures
        hits(starts, v) == (if exists|i: int| 0 <= i < starts.len() && starts[i] == v {
            1int
        } else {
            0int
        }),
    decreases starts.len(),
{
    if starts.len() > 0 {
        let p = starts.drop_last();
        assert forall|i: int, j: int| 0 <= i < j < p.len() implies #[trigger] p[i] < #[trigger] p[j] by {
            assert(p[i] == starts[i] && p[j] == starts[j]);
        }
        lemma_hits_once(p, v);
        if starts.last() == v {
            assert(starts[starts.len() - 1] == v);
            if exists|i: int| 0 <= i < p.len() && p[i] == v {
                let i = choose|i: int| 0 <= i < p.len() && p[i] == v;
                assert(starts[i] == p[i]);
                assert(starts[i] < starts[starts.len() - 1]);
            }
        } else {
            if exists|i: int| 0 <= i < starts.len() && starts[i] == v {
                let i = choose|i: int| 0 <= i < starts.len() && starts[i] == v;
                assert(i < starts.len() - 1);
                assert(p[i] == v);
            }
            if exists|i: int| 0 <= i < p.len() && p[i] == v {
                let i = choose|i: int| 0 <= i < p.len() && p[i] == v;
                assert(starts[i] == v);
            }
        }
    }
}

/// Whether some start is the bucket start of the timestamp.
pub open spec fn covered(starts: Seq<i64>, duration_ms: u64, t: i64) -> bool {
    exists|i: int| 0 <= i < starts.len() && starts[i] == window_start(t, duration_ms)
}

proof fn lemma_count_in_total(rs: Seq<Record>, duration_ms: u64, starts: Seq<i64>)
    requires
        forall|i: int, j: int| 0 <= i < j < starts.len() ==> #[trigger] starts[i] < #[trigger] starts[j],
        forall|k: int| 0 <= k < rs.len() ==> covered(starts, duration_ms, #[trigger] rs[k].timestamp),
    ensures
        count_in(rs, duration_ms, starts) == rs.len(),
    decreases rs.len(),
{
    if rs.len() == 0 {
        lemma_count_in_empty(duration_ms, starts);
        assert(rs =~= Seq::<Record>::empty());
    } else {
        let p = rs.drop_last();
        let x = rs.last();
        assert forall|k: int| 0 <= k < p.len() implies covered(starts, duration_ms, #[trigger] p[k].timestamp) by {
            assert(p[k] == rs[k]);
            assert(covered(starts, duration_ms, rs[k].timestamp));
        }
        lemma_count_in_total(p, duration_ms, starts);
        assert(rs =~= p.push(x));
        lemma_count_in_push(p, x, duration_ms, starts);
        lemma_hits_once(starts, window_start(x.timestamp, duration_ms) as int);
        assert(rs[rs.len() - 1] == x);
        assert(covered(starts, duration_ms, rs[rs.len() - 1].timestamp));
    }
}

/// The starts of groups.
pub open spec fn group_starts(gs: Seq<(i64, Seq<Record>)>) -> Seq<i64> {
    gs.map_values(|g: (i64, Seq<Record>)| g.0)
}

proof fn lemma_group_total_is_count(rs: Seq<Record>, duration_ms: u64, gs: Seq<(i64, Seq<Record>)>)
    requires
        forall|i: int| 0 <= i < gs.len() ==> #[trigger] gs[i].1 == in_window(rs, duration_ms, gs[i].0 as int),
    ensures
        group_total(gs) == count_in(rs, duration_ms, group_starts(gs)),
    decreases gs.len(),
{
    if gs.len() > 0 {
        let p = gs.drop_last();
        assert forall|i: int| 0 <= i < p.len() implies #[trigger] p[i].1 == in_window(rs, duration_ms, p[i].0 as int) by {
            assert(p[i] == gs[i]);
        }
        lemma_group_total_is_count(rs, duration_ms, p);
        assert(group_starts(gs).drop_last() =~= group_starts(p));
        assert(gs.last() == gs[gs.len() - 1]);
    }
}

/// Every record falls in exactly one bucket: the buckets' sizes add up to
/// the number of records.
pub proof fn lemma_buckets_total(rs: Seq<Record>, duration_ms: u64, gs: Seq<(i64, Seq<Record>)>)
    requires
        are_buckets(rs, duration_ms, gs),
    ensures
        group_total(gs) == rs.len(),
{
    let st = group_starts(gs);
    assert forall|i: int, j: int| 0 <= i < j < st.len() implies #[trigger] st[i] < #[trigger] st[j] by {
        assert(st[i] == gs[i].0 && st[j] == gs[j].0);
    }
    assert forall|k: int| 0 <= k < rs.len() implies covered(st, duration_ms, #[trigger] rs[k].timestamp) by {
        assert(has_bucket(gs, rs[k].timestamp, duration_ms));
        let i = choose|i: int| 0 <= i < gs.len() && #[trigger] gs[i].0 == window_start(rs[k].timestamp, duration_ms);
        assert(st[i] == gs[i].0);
    }
    lemma_group_total_is_count(rs, duration_ms, gs);
    lemma_count_in_total(rs, duration_ms, st);
}

/// The models of groups of records.
pub open spec fn groups_view(v: Seq<(i64, Vec<Record>)>) -> Seq<(i64, Seq<Record>)> {
    Seq::new(v.len(), |i: int| (v[i].0, v[i].1@))
}

proof fn lemma_in_window_push(rs: Seq<Record>, x: Record, duration_ms: u64, start: int)
    ensures
        in_window(rs.push(x), duration_ms, start) == (if window_start(x.timestamp, duration_ms) == start {
            in_window(rs, duration_ms, start).push(x)
        } else {
            in_window(rs, duration_ms, start)
        }),
{
    assert(rs.push(x).drop_last() =~= rs);
}

proof fn lemma_in_window_empty(rs: Seq<Record>, duration_ms: u64, start: int)
    requires
        forall|k: int| 0 <= k < rs.len() ==> window_start(#[trigger] rs[k].timestamp, duration_ms) != start,
    ensures
        in_window(rs, duration_ms, start) == Seq::<Record>::empty(),
    decreases rs.len(),
{
    if rs.len() > 0 {
        lemma_in_window_empty(rs.drop_last(), duration_ms, start);
        assert(rs.last() == rs[rs.len() - 1]);
    }
}

/// The start of the bucket of a timestamp, as the key of a bucket map.
pub open spec fn bucket_key(ts: i64, duration_ms: u64) -> i64 {
    window_start(ts, duration_ms) as i64
}

/// The keys of a bucket map, in ascending order.
fn sorted_keys(m: &BTreeMap<i64, Vec<Record>>) -> (ks: Vec<i64>)
    ensures
        forall|a: int, b: int| 0 <= a < b < ks@.len() ==> ks@[a] < ks@[b],
        forall|s: i64| m@.contains_key(s) <==> ks@.contains(s),
{
    broadcast use vstd::std_specs::btree::group_btree_axioms;
    broadcast use vstd::laws_cmp::group_laws_cmp;
    let mut ks: Vec<i64> = Vec::new();
    let ki = m.keys();
    let ghost init = ki;
    assert(init == vstd::std_specs::btree::spec_keys_iter(m));
    for k in it: ki
        invariant
            ks@.len() == it.index(),
            it.seq() == vstd::std_specs::iter::IteratorSpec::remaining(&vstd::std_specs::btree::spec_keys_iter(m)),
            forall|t: int| 0 <= t < ks@.len() ==> ks@[t] == *it.seq()[t],
    {
        ks.push(*k);
    }
    proof {
        let sq = vstd::std_specs::iter::IteratorSpec::remaining(&vstd::std_specs::btree::spec_keys_iter(m));
        assert(ks@.len() == sq.len());
        vstd::std_specs::btree::axiom_spec_keys_iter(m);
        broadcast use vstd::laws_cmp::lemma_ref_obeys_cmp_spec;
        assert(ks@ =~= sq.unref());
        assert forall|a: int, b: int| 0 <= a < b < ks@.len() implies ks@[a] < ks@[b] by {
            assert(vstd::std_specs::cmp::OrdSpec::cmp_spec(&sq[a], &sq[b]) is Less);
        }
        assert forall|x: i64| m@.contains_key(x) <==> ks@.contains(x) by {
            if m@.contains_key(x) {
                assert(sq.unref().to_set().contains(x));
            }
            if ks@.contains(x) {
                assert(sq.unref().to_set().contains(x));
            }
        }
    }
    ks
}

proof fn lemma_keys_cover(
    rs: Seq<Record>,
    duration_ms: u64,
    gs: Seq<(i64, Seq<Record>)>,
    ks: Seq<i64>,
    m: Map<i64, Vec<Record>>,
)
    requires
        gs.len() == ks.len(),
        forall|t: int| 0 <= t < gs.len() ==> #[trigger] gs[t].0 == ks[t],
        forall|s: i64| m.contains_key(s) <==> ks.contains(s),
        forall|k: int| 0 <= k < rs.len() ==> #[trigger] m.contains_key(bucket_key(rs[k].timestamp, duration_ms))
            && bucket_key(rs[k].timestamp, duration_ms) == window_start(rs[k].timestamp, duration_ms),
    ensures
        forall|k: int| 0 <= k < rs.len() ==> #[trigger] has_bucket(gs, rs[k].timestamp, duration_ms),
{
    assert forall|k: int| 0 <= k < rs.len() implies #[trigger] has_bucket(gs, rs[k].timestamp, duration_ms) by {
        let s = bucket_key(rs[k].timestamp, duration_ms);
        assert(m.contains_key(s));
        assert(ks.contains(s));
        let t = choose|t: int| 0 <= t < ks.len() && ks[t] == s;
        assert(gs[t].0 == ks[t]);
    }
}

/// Splits records into their buckets (see [`are_buckets`]).
pub fn window_groups(records: Vec<Record>, duration_ms: u64) -> (r: Vec<(i64, Vec<Record>)>)
    requires
        forall|k: int| 0 <= k < records@.len() ==> !window_fails(#[trigger] records@[k].timestamp, duration_ms),
    ensures
        are_buckets(records@, duration_ms, groups_view(r@)),
{
    broadcast use vstd::std_specs::btree::group_btree_axioms;
    let ghost rs = records@;
    let n = records.len();
    let mut src = records;
    let mut rev: Vec<Record> = Vec::new();
    while src.len() > 0
        invariant
            src@.len() + rev@.len() == n == rs.len(),
            src@ == rs.subrange(0, src@.len() as int),
            forall|t: int| 0 <= t < rev@.len() ==> #[trigger] rev@[t] == rs[n - 1 - t],
        decreases src@.len(),
    {
        let x = src.pop().unwrap();
        rev.push(x);
    }
    let mut m: BTreeMap<i64, Vec<Record>> = BTreeMap::new();
    let mut i: usize = 0;
    assert(rs.take(0) =~= Seq::<Record>::empty());
    while i < n
        invariant
            i <= n == rs.len(),
            rev@.len() == n - i,
            forall|t: int| 0 <= t < rev@.len() ==> #[trigger] rev@[t] == rs[n - 1 - t],
            forall|k: int| 0 <= k < rs.len() ==> !window_fails(#[trigger] rs[k].timestamp, duration_ms),
            forall|s: i64| #[trigger] m@.contains_key(s) ==> m@[s]@ == in_window(rs.take(i as int), duration_ms, s as int)
                && m@[s]@.len() > 0,
            forall|k: int| 0 <= k < i ==> #[trigger] m@.contains_key(bucket_key(rs[k].timestamp, duration_ms))
                && bucket_key(rs[k].timestamp, duration_ms) == window_start(rs[k].timestamp, duration_ms),
        decreases n - i,
    {
        let ghost pre = rs.take(i as int);
        let ghost m0 = m@;
        let x = rev.pop().unwrap();
        assert(x == rs[i as int]);
        let s = window_start_of(x.timestamp, duration_ms);
        let ghost post = rs.take(i + 1);
        proof {
            assert(post =~= pre.push(x));
        }
        let got = m.remove(&s);
        let ghost had = got is Some;
        let g = match got {
            Some(g0) => {
                let mut g = g0;
                g.push(x);
                g
            },
            None => {
                proof {
                    assert forall|k: int| 0 <= k < pre.len() implies window_start(#[trigger] pre[k].timestamp, duration_ms)
                        != s by {
                        assert(pre[k] == rs[k]);
                        assert(m0.contains_key(bucket_key(rs[k].timestamp, duration_ms)));
                    }
                    lemma_in_window_empty(pre, duration_ms, s as int);
                }
                let mut g: Vec<Record> = Vec::new();
                g.push(x);
                g
            },
        };
        m.insert(s, g);
        proof {
            lemma_in_window_push(pre, x, duration_ms, s as int);
            assert(Seq::<Record>::empty().push(x) =~= seq![x]);
            assert forall|t: i64| #[trigger] m@.contains_key(t) implies m@[t]@ == in_window(post, duration_ms, t as int)
                && m@[t]@.len() > 0 by {
                lemma_in_window_push(pre, x, duration_ms, t as int);
                if t != s {
                    assert(m0.contains_key(t) && m@[t] == m0[t]);
                }
            }
            assert(bucket_key(x.timestamp, duration_ms) == s);
        }
        let ghost i0 = i as int;
        i += 1;
        proof {
            assert forall|k: int| 0 <= k < i implies #[trigger] m@.contains_key(bucket_key(rs[k].timestamp, duration_ms))
                && bucket_key(rs[k].timestamp, duration_ms) == window_start(rs[k].timestamp, duration_ms) by {
                if k < i0 {
                    assert(m0.contains_key(bucket_key(rs[k].timestamp, duration_ms)));
                    assert(bucket_key(rs[k].timestamp, duration_ms) != s ==> m@.contains_key(bucket_key(rs[k].timestamp, duration_ms)));
                } else {
                    assert(rs[k] == x);
                    assert(m@.contains_key(s));
                }
            }
        }
    }
    assert(rs.take(n as int) =~= rs);
    let ks = sorted_keys(&m);
    let ghost m0 = m@;
    let mut groups: Vec<(i64, Vec<Record>)> = Vec::new();
    let mut j: usize = 0;
    proof {
        assert forall|t: int| 0 <= t < ks@.len() implies #[trigger] m@.contains_key(ks@[t]) && m@[ks@[t]] == m0[ks@[t]] by {
            assert(ks@.contains(ks@[t]));
        }
    }
    while j < ks.len()
        invariant
            j <= ks@.len(),
            forall|a: int, b: int| 0 <= a < b < ks@.len() ==> ks@[a] < ks@[b],
            forall|s: i64| m0.contains_key(s) <==> ks@.contains(s),
            forall|s: i64| #[trigger] m0.contains_key(s) ==> m0[s]@ == in_window(rs, duration_ms, s as int) && m0[s]@.len() > 0,
            forall|t: int| j <= t < ks@.len() ==> #[trigger] m@.contains_key(ks@[t]) && m@[ks@[t]] == m0[ks@[t]],
            groups@.len() == j,
            forall|t: int| 0 <= t < j ==> (#[trigger] groups@[t]).0 == ks@[t] && groups@[t].1 == m0[ks@[t]],
        decreases ks@.len() - j,
    {
        let k = ks[j];
        let ghost m1 = m@;
        let got = m.remove(&k);
        proof {
            assert(m1.contains_key(k));
            assert(m@ == m1.remove(k));
            assert(got == Some(m1[k]));
        }
        match got {
            Some(g) => {
                groups.push((k, g));
            },
            None => {},
        }
        j += 1;
        proof {
            assert forall|t: int| j <= t < ks@.len() implies #[trigger] m@.contains_key(ks@[t]) && m@[ks@[t]] == m0[ks@[t]] by {
                assert(ks@[j - 1] < ks@[t]);
                assert(m1.contains_key(ks@[t]) && m1[ks@[t]] == m0[ks@[t]]);
            }
        }
    }
    proof {
        let gv = groups_view(groups@);
        assert(gv.len() == ks@.len());
        assert forall|t: int| 0 <= t < gv.len() implies #[trigger] gv[t] == (ks@[t], m0[ks@[t]]@) by {}
        assert forall|t: int| 0 <= t < gv.len() implies #[trigger] gv[t].1 == in_window(rs, duration_ms, gv[t].0 as int)
            && gv[t].1.len() > 0 by {
            assert(ks@.contains(ks@[t]));
            assert(m0.contains_key(ks@[t]));
        }
        assert forall|a: int, b: int| 0 <= a < b < gv.len() implies #[trigger] gv[a].0 < #[trigger] gv[b].0 by {}
        assert forall|t: int| 0 <= t < gv.len() implies #[trigger] gv[t].0 == ks@[t] by {
            assert(gv[t] == (ks@[t], m0[ks@[t]]@));
        }
        lemma_keys_cover(rs, duration_ms, gv, ks@, m0);
        assert(forall|i: int, j: int| 0 <= i < j < gv.len() ==> #[trigger] gv[i].0 < #[trigger] gv[j].0);
        assert(forall|i: int| 0 <= i < gv.len() ==> #[trigger] gv[i].1 == in_window(rs, duration_ms, gv[i].0 as int) && gv[i].1.len() > 0);
        assert(are_buckets(rs, duration_ms, gv));
    }
    groups
}

/// The key of a bucket's record: `window_` and the bucket's start.
pub open spec fn window_key_text(start: int) -> Seq<char> {
    "window_"@ + int_text(start)
}

/// The record that stands for a bucket: sequence id and timestamp are the
/// bucket's start (the id taken as unsigned), the stream that of the
/// bucket's first record, and the value the aggregate.
pub fn window_record(start: i64, stream_name: String, value: DataValue) -> (r: Record)
    ensures
        r.sequence_id == (if start >= 0 {
            start as int
        } else {
            start + 0x1_0000_0000_0000_0000
        }),
        r.timestamp == start,
        r.type_tag == spec_type_tag(value),
        r.flags == 1,
        r.stream_name == stream_name,
        r.key@ == encode_utf8(window_key_text(start as int)),
        r.value == value,
{
    let mut t = crate::text::owned("window_");
    t.append(crate::parser::int_text_exec(start).as_str());
    proof {
        reveal_strlit("window_");
        lemma_int_text_short(start as int);
        vstd::utf8::is_ascii_chars_concat(window_key_text(start as int), "window_"@, int_text(start as int));
        vstd::utf8::is_ascii_chars_encode_utf8(window_key_text(start as int));
    }
    let ts = t.as_str();
    assert(ts.spec_bytes() == encode_utf8(window_key_text(start as int)));
    let key = crate::storage::key::StreamKey::from_str_truncated(ts);
    let tag = value.type_tag();
    let seq_id: u64 = if start >= 0 {
        start as u64
    } else {
        (start as i128 + 0x1_0000_0000_0000_0000i128) as u64
    };
    Record { sequence_id: seq_id, timestamp: start, type_tag: tag, flags: 1, stream_name, key, value }
}

/// The bucket records of the `count` strategy: each bucket's number of records.
pub fn window_counts(groups: Vec<(i64, Vec<Record>)>) -> (r: Vec<Record>)
    requires
        forall|i: int| 0 <= i < groups@.len() ==> (#[trigger] groups@[i]).1@.len() > 0,
    ensures
        r@.len() == groups@.len(),
        forall|i: int|
            0 <= i < r@.len() ==> (#[trigger] r@[i]).timestamp == groups@[i].0 && r@[i].value == DataValue::UInt(
                groups@[i].1@.len() as u64,
            ) && r@[i].stream_name == groups@[i].1@[0].stream_name && r@[i].key@ == encode_utf8(
                window_key_text(groups@[i].0 as int),
            ) && r@[i].type_tag == 3 && r@[i].flags == 1 && r@[i].sequence_id == (if groups@[i].0 >= 0 {
                groups@[i].0 as int
            } else {
                groups@[i].0 + 0x1_0000_0000_0000_0000
            }),
{
    let mut out: Vec<Record> = Vec::new();
    let mut i: usize = 0;
    while i < groups.len()
        invariant
            i <= groups@.len(),
            out@.len() == i,
            forall|t: int| 0 <= t < groups@.len() ==> (#[trigger] groups@[t]).1@.len() > 0,
            forall|t: int|
                0 <= t < i ==> (#[trigger] out@[t]).timestamp == groups@[t].0 && out@[t].value == DataValue::UInt(
                    groups@[t].1@.len() as u64,
                ) && out@[t].stream_name == groups@[t].1@[0].stream_name && out@[t].key@ == encode_utf8(
                    window_key_text(groups@[t].0 as int),
                ) && out@[t].type_tag == 3 && out@[t].flags == 1 && out@[t].sequence_id == (if groups@[t].0 >= 0 {
                    groups@[t].0 as int
                } else {
                    groups@[t].0 + 0x1_0000_0000_0000_0000
                }),
        decreases groups@.len() - i,
    {
        let g = &groups[i];
        let name = g.1[0].stream_name.clone();
        let rec = window_record(g.0, name, DataValue::UInt(g.1.len() as u64));
        out.push(rec);
        i += 1;
    }
    out
}

/// Powers of ten.
pub open spec fn pow10(k: nat) -> nat
    decreases k,
{
    if k == 0 {
        1
    } else {
        10 * pow10((k - 1) as nat)
    }
}

proof fn lemma_nat_text_short(n: nat, k: nat)
    requires
        k >= 1,
        n < pow10(k),
    ensures
        nat_text(n).len() <= k,
        is_ascii_chars(nat_text(n)),
    decreases n,
{
    if n < 10 {
        assert(nat_text(n).len() == 1);
    } else {
        assert(k >= 2) by {
            if k == 1 {
                assert(pow10(1) == 10 * pow10(0));
            }
        }
        assert(pow10(k) == 10 * pow10((k - 1) as nat));
        assert(n / 10 < pow10((k - 1) as nat));
        lemma_nat_text_short(n / 10, (k - 1) as nat);
        let t = nat_text(n);
        assert(t == nat_text(n / 10).push((('0' as int) + (n % 10)) as char));
        assert forall|i: int| 0 <= i < t.len() implies '\0' <= #[trigger] t[i] <= '\u{7f}' by {
            if i < t.len() - 1 {
                assert(t[i] == nat_text(n / 10)[i]);
            }
        }
    }
}

proof fn lemma_int_text_short(i: int)
    requires
        i64::MIN <= i <= i64::MAX,
    ensures
        int_text(i).len() <= 20,
        is_ascii_chars(int_text(i)),
{
    assert(pow10(19) == 10000000000000000000nat) by {
        reveal_with_fuel(pow10, 20);
    }
    if i < 0 {
        lemma_nat_text_short((0 - i) as nat, 19);
        let t = int_text(i);
        assert forall|j: int| 0 <= j < t.len() implies '\0' <= #[trigger] t[j] <= '\u{7f}' by {
            if j > 0 {
                assert(t[j] == nat_text((0 - i) as nat)[j - 1]);
            }
        }
    } else {
        lemma_nat_text_short(i as nat, 19);
    }
}

/// The decimal text of a 64-bit number has at most twenty digits.
pub proof fn lemma_nat_text_len(n: nat)
    requires
        n <= u64::MAX,
    ensures
        1 <= nat_text(n).len() <= 20,
    decreases n,
{
    assert(pow10(20) == 100000000000000000000nat) by {
        reveal_with_fuel(pow10, 21);
    }
    lemma_nat_text_short(n, 20);
    if n >= 10 {
        lemma_nat_text_len(n / 10);
    }
}

} // verus!

