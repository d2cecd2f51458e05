//! Per-stream time index: (timestamp in ms, sequence id) → frame location,
//! kept in a concurrent skip list so that a time range is read in order.
use crate::types::LogPointer;
use crossbeam_skiplist::SkipMap;
use vstd::prelude::*;

verus! {

#[verifier::external_type_specification]
#[verifier::external_body]
#[verifier::reject_recursive_types(K)]
#[verifier::reject_recursive_types(V)]
pub struct ExSkipMap<K, V>(SkipMap<K, V>);

/// An index key: timestamp in ms, then sequence id.
pub type TimeKey = (i64, u64);

/// The skip list that holds an index.
pub type TimeSkipMap = SkipMap<TimeKey, LogPointer>;

/// The entries that a skip list of this index holds.
pub uninterp spec fn skip_entries(m: TimeSkipMap) -> Map<(i64, u64), LogPointer>;

/// The index with no entries.
pub open spec fn empty_index() -> Map<(i64, u64), LogPointer> {
    Map::empty()
}

/// The order of index keys: by timestamp, then by sequence id.
pub open spec fn key_before(a: (i64, u64), b: (i64, u64)) -> bool {
    a.0 < b.0 || (a.0 == b.0 && a.1 < b.1)
}

/// Whether the pointers are the entries whose timestamp lies in
/// `[start, end]`, in ascending key order.
pub open spec fn is_range_result(m: Map<(i64, u64), LogPointer>, start: i64, end: i64, r: Seq<LogPointer>) -> bool {
    exists|ks: Seq<(i64, u64)>|
        {
            &&& ks.len() == r.len()
            &&& forall|i: int, j: int| 0 <= i < j < ks.len() ==> key_before(#[trigger] ks[i], #[trigger] ks[j])
            &&& forall|i: int|
                0 <= i < ks.len() ==> m.contains_key(#[trigger] ks[i]) && start <= ks[i].0 <= end && r[i]
                    == m[ks[i]]
            &&& forall|k: (i64, u64)| m.contains_key(k) && start <= k.0 <= end ==> ks.contains(k)
        }
}

/// An empty skip list (`SkipMap::new`).
#[verifier::external_body]
fn skip_new() -> (r: TimeSkipMap)
    ensures
        skip_entries(r) == empty_index(),
{
    SkipMap::new()
}

/// `SkipMap::insert`: an existing entry for the key is replaced.
#[verifier::external_body]
fn skip_insert(m: &mut TimeSkipMap, k: (i64, u64), v: LogPointer)
    ensures
        skip_entries(*final(m)) == skip_entries(*old(m)).insert(k, v),
{
    m.insert(k, v);
}

/// `SkipMap::remove`: the key's entry, if any, goes.
#[verifier::external_body]
fn skip_remove(m: &mut TimeSkipMap, k: (i64, u64))
    ensures
        skip_entries(*final(m)) == skip_entries(*old(m)).remove(k),
{
    m.remove(&k);
}

/// `SkipMap::len`: the number of entries (exact when nothing else modifies
/// the list at the same time, which exclusive access here rules out).
#[verifier::external_body]
fn skip_len(m: &TimeSkipMap) -> (r: usize)
    ensures
        r == skip_entries(*m).len(),
{
    m.len()
}

/// `SkipMap::is_empty`.
#[verifier::external_body]
fn skip_is_empty(m: &TimeSkipMap) -> (r: bool)
    ensures
        r == (skip_entries(*m).len() == 0),
{
    m.is_empty()
}

/// `SkipMap::range` over `[(start, 0), (end, u64::MAX)]`, taking each
/// entry's value: the entries are visited in ascending key order.
#[verifier::external_body]
fn skip_range(m: &TimeSkipMap, start: i64, end: i64) -> (r: Vec<LogPointer>)
    ensures
        is_range_result(skip_entries(*m), start, end, r@),
{
    m.range((std::ops::Bound::Included(&(start, u64::MIN)), std::ops::Bound::Included(&(end, u64::MAX)))).map(
        |e| *e.value(),
    ).collect()
}

/// Per-stream sorted index.
pub struct TimestampIndex {
    inner: TimeSkipMap,
}

impl View for TimestampIndex {
    type V = Map<(i64, u64), LogPointer>;

    closed spec fn view(&self) -> Map<(i64, u64), LogPointer> {
        skip_entries(self.inner)
    }
}

impl TimestampIndex {
    pub fn new() -> (r: Self)
        ensures
            r@ == empty_index(),
    {
        TimestampIndex { inner: skip_new() }
    }

    /// Records the location of the frame with this timestamp and sequence id.
    pub fn insert(&mut self, timestamp: i64, seq_id: u64, pointer: LogPointer)
        ensures
            final(self)@ == old(self)@.insert((timestamp, seq_id), pointer),
    {
        skip_insert(&mut self.inner, (timestamp, seq_id), pointer);
    }

    /// Forgets the entry for this timestamp and sequence id.
    pub fn remove(&mut self, timestamp: i64, seq_id: u64)
        ensures
            final(self)@ == old(self)@.remove((timestamp, seq_id)),
    {
        skip_remove(&mut self.inner, (timestamp, seq_id));
    }

    /// All pointers with a timestamp in `[start_ms, end_ms]`, in key order.
    pub fn range(&self, start_ms: i64, end_ms: i64) -> (r: Vec<LogPointer>)
        ensures
            is_range_result(self@, start_ms, end_ms, r@),
    {
        skip_range(&self.inner, start_ms, end_ms)
    }

    /// The number of entries.
    pub fn len(&self) -> (r: usize)
        ensures
            r == self@.len(),
    {
        skip_len(&self.inner)
    }

    /// Whether there are no entries.
    pub fn is_empty(&self) -> (r: bool)
        ensures
            r == (self@.len() == 0),
    {
        skip_is_empty(&self.inner)
    }
}

impl Default for TimestampIndex {
    fn default() -> (r: Self)
        ensures
            r@ == empty_index(),
    {
        Self::new()
    }
}


/// A pointer recorded at a time is among those that a range read covering
/// that time returns.
pub proof fn lemma_range_sees_insert(
    m: Map<(i64, u64), LogPointer>,
    t: i64,
    seq_id: u64,
    p: LogPointer,
    start: i64,
    end: i64,
    r: Seq<LogPointer>,
)
    requires
        start <= t <= end,
        is_range_result(m.insert((t, seq_id), p), start, end, r),
    ensures
        r.contains(p),
{
    let m2 = m.insert((t, seq_id), p);
    let ks = choose|ks: Seq<(i64, u64)>|
        {
            &&& ks.len() == r.len()
            &&& forall|i: int, j: int| 0 <= i < j < ks.len() ==> key_before(#[trigger] ks[i], #[trigger] ks[j])
            &&& forall|i: int|
                0 <= i < ks.len() ==> m2.contains_key(#[trigger] ks[i]) && start <= ks[i].0 <= end && r[i]
                    == m2[ks[i]]
            &&& forall|k: (i64, u64)| m2.contains_key(k) && start <= k.0 <= end ==> ks.contains(k)
        };
    assert(m2.contains_key((t, seq_id)));
    assert(ks.contains((t, seq_id)));
    let i = choose|i: int| 0 <= i < ks.len() && ks[i] == (t, seq_id);
    assert(r[i] == p);
}

} // verus!
