//! Grouping records by a text: one group per distinct text, in ascending
//! (bytewise) order of the texts, each holding its records in their order.
//! The texts are what `group_by` reads of each record; the aggregates over a
//! group (sums, averages, extremes of floating-point numbers) are computed
//! outside this crate.
use crate::executor::bytes_lt;
use crate::types::Record;
use vstd::prelude::*;
use vstd::utf8::encode_utf8;

verus! {

/// Bytewise order of texts (std `Ord for String`).
pub open spec fn text_lt(a: Seq<char>, b: Seq<char>) -> bool {
    bytes_lt(encode_utf8(a), encode_utf8(b))
}

pub(crate) proof fn lemma_bytes_lt_irrefl(a: Seq<u8>)
    ensures
        !bytes_lt(a, a),
    decreases a.len(),
{
    if a.len() > 0 {
        lemma_bytes_lt_irrefl(a.drop_first());
    }
}

pub(crate) proof fn lemma_bytes_lt_trans(a: Seq<u8>, b: Seq<u8>, c: Seq<u8>)
    requires
        bytes_lt(a, b),
        bytes_lt(b, c),
    ensures
        bytes_lt(a, c),
    decreases a.len(),
{
    if a.len() > 0 && b.len() > 0 && c.len() > 0 && a[0] == b[0] && b[0] == c[0] {
        lemma_bytes_lt_trans(a.drop_first(), b.drop_first(), c.drop_first());
    }
}

pub(crate) proof fn lemma_bytes_lt_total(a: Seq<u8>, b: Seq<u8>)
    requires
        a != b,
    ensures
        bytes_lt(a, b) || bytes_lt(b, a),
    decreases a.len(),
{
    if a.len() > 0 && b.len() > 0 && a[0] == b[0] {
        if a.drop_first() == b.drop_first() {
            assert(a =~= seq![a[0]] + a.drop_first());
            assert(b =~= seq![b[0]] + b.drop_first());
        }
        lemma_bytes_lt_total(a.drop_first(), b.drop_first());
    } else if a.len() == 0 && b.len() == 0 {
        assert(a =~= b);
    }
}

/// The bytewise order of texts is a strict total order.
pub proof fn lemma_text_order(a: Seq<char>, b: Seq<char>, c: Seq<char>)
    ensures
        !text_lt(a, a),
        text_lt(a, b) && text_lt(b, c) ==> text_lt(a, c),
        a != b ==> text_lt(a, b) || text_lt(b, a),
{
    lemma_bytes_lt_irrefl(encode_utf8(a));
    if text_lt(a, b) && text_lt(b, c) {
        lemma_bytes_lt_trans(encode_utf8(a), encode_utf8(b), encode_utf8(c));
    }
    if a != b {
        vstd::utf8::encode_utf8_decode_utf8(a);
        vstd::utf8::encode_utf8_decode_utf8(b);
        lemma_bytes_lt_total(encode_utf8(a), encode_utf8(b));
    }
}

/// The records of `rs` whose text is `k`, in order.
pub open spec fn members(rs: Seq<Record>, ts: Seq<Seq<char>>, k: Seq<char>) -> Seq<Record>
    decreases rs.len(),
{
    if rs.len() == 0 || ts.len() != rs.len() {
        Seq::empty()
    } else if ts.last() == k {
        members(rs.drop_last(), ts.drop_last(), k).push(rs.last())
    } else {
        members(rs.drop_last(), ts.drop_last(), k)
    }
}

/// Whether the groups are those of `rs` by the texts `ts`: in ascending
/// order of text, each non-empty and holding its records in their order,
/// and every record in one of them.
pub open spec fn are_text_groups(rs: Seq<Record>, ts: Seq<Seq<char>>, gs: Seq<(Seq<char>, Seq<Record>)>) -> bool {
    &&& forall|i: int, j: int| 0 <= i < j < gs.len() ==> text_lt(#[trigger] gs[i].0, #[trigger] gs[j].0)
    &&& forall|i: int| 0 <= i < gs.len() ==> #[trigger] gs[i].1 == members(rs, ts, gs[i].0) && gs[i].1.len() > 0
    &&& forall|k: int| 0 <= k < rs.len() ==> exists|i: int| 0 <= i < gs.len() && #[trigger] gs[i].0 == #[trigger] ts[k]
}

/// The models of text groups.
pub open spec fn text_groups_view(v: Seq<(String, Vec<Record>)>) -> Seq<(Seq<char>, Seq<Record>)> {
    Seq::new(v.len(), |i: int| (v[i].0@, v[i].1@))
}

proof fn lemma_members_push(rs: Seq<Record>, ts: Seq<Seq<char>>, x: Record, t: Seq<char>, k: Seq<char>)
    requires
        ts.len() == rs.len(),
    ensures
        members(rs.push(x), ts.push(t), k) == (if t == k {
            members(rs, ts, k).push(x)
        } else {
            members(rs, ts, k)
        }),
{
    assert(rs.push(x).drop_last() =~= rs);
    assert(ts.push(t).drop_last() =~= ts);
}

proof fn lemma_members_empty(rs: Seq<Record>, ts: Seq<Seq<char>>, k: Seq<char>)
    requires
        ts.len() == rs.len(),
        forall|j: int| 0 <= j < ts.len() ==> #[trigger] ts[j] != k,
    ensures
        members(rs, ts, k) == Seq::<Record>::empty(),
    decreases rs.len(),
{
    if rs.len() > 0 {
        lemma_members_empty(rs.drop_last(), ts.drop_last(), k);
        assert(ts.last() == ts[ts.len() - 1]);
    }
}

fn text_lt_exec(a: &String, b: &String) -> (r: bool)
    ensures
        r == text_lt(a@, b@),
{
    crate::executor::bytes_lt_exec(a.as_str().as_bytes(), b.as_str().as_bytes())
}

/// Splits records into groups by their texts (see [`are_text_groups`]);
/// `texts` holds one text per record.
pub fn group_by_text(records: Vec<Record>, texts: &Vec<String>) -> (r: Vec<(String, Vec<Record>)>)
    requires
        texts@.len() == records@.len(),
    ensures
        are_text_groups(records@, texts@.map_values(|s: String| s@), text_groups_view(r@)),
{
    let ghost rs = records@;
    let ghost ts = texts@.map_values(|s: String| s@);
    let n = records.len();
    let mut src = records;
    let mut rev: Vec<Record> = Vec::new();
    while src.len() > 0
        invariant
            src@.len() + rev@.len() == n == rs.len(),
            src@ == rs.subrange(0, src@.len() as int),
            forall|t: int| 0 <= t < rev@.len() ==> #[trigger] rev@[t] == rs[n - 1 - t],
        decreases src@.len(),
    {
        let x = src.pop().unwrap();
        rev.push(x);
    }
    let mut groups: Vec<(String, Vec<Record>)> = Vec::new();
    let mut i: usize = 0;
    assert(rs.take(0) =~= Seq::<Record>::empty());
    assert(ts.take(0) =~= Seq::<Seq<char>>::empty());
    while i < n
        invariant
            i <= n == rs.len() == ts.len(),
            ts == texts@.map_values(|s: String| s@),
            rev@.len() == n - i,
            forall|t: int| 0 <= t < rev@.len() ==> #[trigger] rev@[t] == rs[n - 1 - t],
            are_text_groups(rs.take(i as int), ts.take(i as int), text_groups_view(groups@)),
        decreases n - i,
    {
        let ghost pre = rs.take(i as int);
        let ghost pts = ts.take(i as int);
        let ghost gv0 = text_groups_view(groups@);
        let x = rev.pop().unwrap();
        assert(x == rs[i as int]);
        let s = &texts[i];
        assert(s@ == ts[i as int]);
        let mut j: usize = 0;
        while j < groups.len() && text_lt_exec(&groups[j].0, s)
            invariant
                j <= groups@.len(),
                forall|t: int| 0 <= t < j ==> text_lt((#[trigger] groups@[t]).0@, s@),
            decreases groups@.len() - j,
        {
            j += 1;
        }
        let ghost post = rs.take(i + 1);
        let ghost pts2 = ts.take(i + 1);
        proof {
            assert(post =~= pre.push(x));
            assert(pts2 =~= pts.push(s@));
        }
        if j < groups.len() && groups[j].0 == *s {
            let ghost g0 = groups@[j as int].1@;
            let mut g = groups.remove(j);
            g.1.push(x);
            groups.insert(j, g);
            proof {
                let gv = text_groups_view(groups@);
                assert(gv =~= gv0.update(j as int, (s@, g0.push(x))));
                assert(gv0[j as int].0 == s@);
                assert(gv0[j as int].1 == g0);
                assert forall|t: int| 0 <= t < gv.len() implies #[trigger] gv[t].1 == members(post, pts2, gv[t].0)
                    && gv[t].1.len() > 0 by {
                    lemma_members_push(pre, pts, x, s@, gv[t].0);
                    if t < j {
                        assert(text_lt(gv0[t].0, gv0[j as int].0));
                        lemma_text_order(gv0[t].0, gv0[j as int].0, s@);
                        assert(gv[t] == gv0[t]);
                    } else if t > j {
                        assert(text_lt(gv0[j as int].0, gv0[t].0));
                        lemma_text_order(gv0[t].0, gv0[j as int].0, s@);
                        assert(gv[t] == gv0[t]);
                    }
                }
                assert forall|a: int, b: int| 0 <= a < b < gv.len() implies text_lt(#[trigger] gv[a].0, #[trigger] gv[b].0) by {
                    assert(gv[a].0 == gv0[a].0 && gv[b].0 == gv0[b].0);
                }
                assert forall|k: int| 0 <= k < post.len() implies exists|t: int| 0 <= t < gv.len() && #[trigger] gv[t].0
                    == #[trigger] pts2[k] by {
                    if k < i {
                        assert(pts2[k] == pts[k]);
                        let t = choose|t: int| 0 <= t < gv0.len() && #[trigger] gv0[t].0 == #[trigger] pts[k];
                        assert(gv[t].0 == gv0[t].0);
                    } else {
                        assert(gv[j as int].0 == s@);
                        assert(pts2[k] == s@);
                    }
                }
            }
        } else {
            let mut g: Vec<Record> = Vec::new();
            g.push(x);
            groups.insert(j, (s.clone(), g));
            proof {
                let gv = text_groups_view(groups@);
                assert(gv =~= gv0.insert(j as int, (s@, seq![x])));
                if j < gv0.len() {
                    assert(gv0[j as int].0 != s@);
                    assert(!text_lt(gv0[j as int].0, s@));
                    lemma_text_order(gv0[j as int].0, s@, s@);
                    assert(text_lt(s@, gv0[j as int].0));
                }
                assert forall|k: int| 0 <= k < pts.len() implies #[trigger] pts[k] != s@ by {
                    let t = choose|t: int| 0 <= t < gv0.len() && #[trigger] gv0[t].0 == #[trigger] pts[k];
                    if pts[k] == s@ {
                        if t < j {
                            assert(text_lt(groups@[t].0@, s@));
                            lemma_text_order(s@, s@, s@);
                        } else if t == j {
                        } else {
                            assert(text_lt(gv0[j as int].0, gv0[t].0));
                            lemma_text_order(s@, gv0[j as int].0, s@);
                        }
                    }
                }
                lemma_members_empty(pre, pts, s@);
                lemma_members_push(pre, pts, x, s@, s@);
                assert(Seq::<Record>::empty().push(x) =~= seq![x]);
                assert forall|t: int| 0 <= t < gv.len() implies #[trigger] gv[t].1 == members(post, pts2, gv[t].0)
                    && gv[t].1.len() > 0 by {
                    lemma_members_push(pre, pts, x, s@, gv[t].0);
                    if t < j {
                        assert(gv[t] == gv0[t]);
                        assert(text_lt(groups@[t].0@, s@));
                        lemma_text_order(s@, s@, s@);
                    } else if t > j {
                        assert(gv[t] == gv0[t - 1]);
                        if t - 1 > j {
                            assert(text_lt(gv0[j as int].0, gv0[t - 1].0));
                            lemma_text_order(s@, gv0[j as int].0, gv0[t - 1].0);
                        }
                        lemma_text_order(gv0[t - 1].0, s@, s@);
                    }
                }
                assert forall|a: int, b: int| 0 <= a < b < gv.len() implies text_lt(#[trigger] gv[a].0, #[trigger] gv[b].0) by {
                    if b < j {
                        assert(gv[a] == gv0[a] && gv[b] == gv0[b]);
                    } else if b == j {
                        assert(gv[a] == gv0[a]);
                        assert(text_lt(groups@[a].0@, s@));
                    } else if a > j {
                        assert(gv[a] == gv0[a - 1] && gv[b] == gv0[b - 1]);
                    } else if a == j {
                        assert(gv[b] == gv0[b - 1]);
                        if b - 1 > j {
                            assert(text_lt(gv0[j as int].0, gv0[b - 1].0));
                            lemma_text_order(s@, gv0[j as int].0, gv0[b - 1].0);
                        }
                    } else {
                        assert(gv[a] == gv0[a] && gv[b] == gv0[b - 1]);
                        assert(text_lt(groups@[a].0@, s@));
                        if b - 1 > j {
                            assert(text_lt(gv0[j as int].0, gv0[b - 1].0));
                            lemma_text_order(s@, gv0[j as int].0, gv0[b - 1].0);
                        }
                        lemma_text_order(gv0[a].0, s@, gv0[b - 1].0);
                    }
                }
                assert forall|k: int| 0 <= k < post.len() implies exists|t: int| 0 <= t < gv.len() && #[trigger] gv[t].0
                    == #[trigger] pts2[k] by {
                    if k < i {
                        assert(pts2[k] == pts[k]);
                        let t = choose|t: int| 0 <= t < gv0.len() && #[trigger] gv0[t].0 == #[trigger] pts[k];
                        if t < j {
                            assert(gv[t].0 == gv0[t].0);
                        } else {
                            assert(gv[t + 1].0 == gv0[t].0);
                        }
                    } else {
                        assert(gv[j as int].0 == s@);
                        assert(pts2[k] == s@);
                    }
                }
            }
        }
        i += 1;
    }
    assert(rs.take(n as int) =~= rs);
    assert(ts.take(n as int) =~= ts);
    groups
}

} // verus!
