//! The primary index: for each compound key `stream:key`, the location of
//! the frame that holds its latest live record, kept in a concurrent skip
//! list, together with an estimate of the RAM that the index takes.
use crate::storage::frame::FrameHeader;
use crate::types::LogPointer;
use crossbeam_skiplist::SkipMap;
use vstd::prelude::*;
use vstd::utf8::encode_utf8;
use vstd::wrapping::u64_specs;

verus! {

/// The skip list behind the primary index.
pub type KeySkipMap = SkipMap<String, LogPointer>;

/// The entries that the skip list holds, by the text of their keys.
pub uninterp spec fn key_entries(m: KeySkipMap) -> Map<Seq<char>, LogPointer>;

/// The index with no entries.
pub open spec fn no_keys() -> Map<Seq<char>, LogPointer> {
    Map::empty()
}

/// `SkipMap::new`: an empty skip list.
#[verifier::external_body]
fn key_skip_new() -> (r: KeySkipMap)
    ensures
        key_entries(r) == no_keys(),
{
    SkipMap::new()
}

/// `SkipMap::insert`: the key's entry is set, replacing any earlier one.
#[verifier::external_body]
fn key_skip_insert(m: &mut KeySkipMap, k: String, v: LogPointer)
    ensures
        key_entries(*final(m)) == key_entries(*old(m)).insert(k@, v),
{
    m.insert(k, v);
}

/// `SkipMap::remove`: the key's entry goes; the result says whether there was one.
#[verifier::external_body]
fn key_skip_remove(m: &mut KeySkipMap, k: &str) -> (r: bool)
    ensures
        key_entries(*final(m)) == key_entries(*old(m)).remove(k@),
        r == key_entries(*old(m)).contains_key(k@),
{
    m.remove(k).is_some()
}

/// `SkipMap::get`, taking the entry's value.
#[verifier::external_body]
fn key_skip_get(m: &KeySkipMap, k: &str) -> (r: Option<LogPointer>)
    ensures
        key_entries(*m).contains_key(k@) ==> r == Some(key_entries(*m)[k@]),
        !key_entries(*m).contains_key(k@) ==> r is None,
{
    m.get(k).map(|e| *e.value())
}

/// `SkipMap::len`: the number of entries (exact when nothing else modifies
/// the list at the same time, which exclusive access here rules out).
#[verifier::external_body]
fn key_skip_len(m: &KeySkipMap) -> (r: usize)
    ensures
        r == key_entries(*m).len(),
{
    m.len()
}

/// `SkipMap::iter`, copying each entry: every entry once, in ascending
/// order of the keys (`String` orders by bytes).
#[verifier::external_body]
fn key_skip_entries(m: &KeySkipMap) -> (r: Vec<(String, LogPointer)>)
    ensures
        forall|i: int| 0 <= i < r@.len() ==> key_entries(*m).contains_key(#[trigger] r@[i].0@) && key_entries(
            *m,
        )[r@[i].0@] == r@[i].1,
        forall|k: Seq<char>| key_entries(*m).contains_key(k) ==> exists|i: int| 0 <= i < r@.len() && #[trigger] r@[i].0@ == k,
        forall|i: int, j: int|
            0 <= i < j < r@.len() ==> crate::executor::bytes_lt(encode_utf8(#[trigger] r@[i].0@), encode_utf8(#[trigger] r@[j].0@)),
{
    m.iter().map(|e| (e.key().clone(), *e.value())).collect()
}

/// The key under which the index files a stream's key.
pub open spec fn compound(stream: Seq<char>, key: Seq<char>) -> Seq<char> {
    stream + seq![':'] + key
}

/// The RAM that the index counts for an entry: the key's bytes and 64.
pub open spec fn node_overhead(ck: Seq<char>) -> u64 {
    ((encode_utf8(ck).len() + 64) % 0x1_0000_0000_0000_0000) as u64
}

/// The index after a write of `ck`: a pointer for a live record, none for a tombstone.
pub open spec fn entries_after(m: Map<Seq<char>, LogPointer>, ck: Seq<char>, pointer: Option<LogPointer>) -> Map<
    Seq<char>,
    LogPointer,
> {
    match pointer {
        Some(p) => m.insert(ck, p),
        None => m.remove(ck),
    }
}

/// The index after compaction points `ck` at its compacted frame: only where
/// its entry still points into a segment older than `active_id`.
pub open spec fn repointed(m: Map<Seq<char>, LogPointer>, ck: Seq<char>, pointer: LogPointer, active_id: u64) -> Map<
    Seq<char>,
    LogPointer,
> {
    if m.contains_key(ck) && m[ck].segment_id < active_id {
        m.insert(ck, pointer)
    } else {
        m
    }
}

/// The index after compaction has repointed each moved key in turn.
pub open spec fn repointed_all(m: Map<Seq<char>, LogPointer>, moves: Seq<(Seq<char>, LogPointer)>, active_id: u64) -> Map<
    Seq<char>,
    LogPointer,
>
    decreases moves.len(),
{
    if moves.len() == 0 {
        m
    } else {
        repointed_all(repointed(m, moves[0].0, moves[0].1, active_id), moves.drop_first(), active_id)
    }
}

/// Compaction keeps the index's keys: repointing moved keys adds and drops
/// none, and every key whose entry points into the active segment or a newer
/// one keeps its location.
pub proof fn lemma_compaction_keeps_keys(
    m: Map<Seq<char>, LogPointer>,
    moves: Seq<(Seq<char>, LogPointer)>,
    active_id: u64,
)
    ensures
        repointed_all(m, moves, active_id).dom() == m.dom(),
        forall|k: Seq<char>|
            #[trigger] m.contains_key(k) && m[k].segment_id >= active_id ==> repointed_all(m, moves, active_id)[k]
                == m[k],
    decreases moves.len(),
{
    if moves.len() > 0 {
        let m1 = repointed(m, moves[0].0, moves[0].1, active_id);
        lemma_compaction_keeps_keys(m1, moves.drop_first(), active_id);
        assert(m1.dom() =~= m.dom());
        assert forall|k: Seq<char>| #[trigger] m.contains_key(k) && m[k].segment_id >= active_id implies m1.contains_key(
            k,
        ) && m1[k] == m[k] by {}
    }
}

/// Reading a key back after a write to it gives the written location, or
/// nothing after a tombstone; writes to other keys leave it as it was.
pub proof fn lemma_read_after_write(
    m: Map<Seq<char>, LogPointer>,
    ck: Seq<char>,
    pointer: Option<LogPointer>,
    other: Seq<char>,
)
    ensures
        entries_after(m, ck, pointer).contains_key(ck) == (pointer is Some),
        pointer matches Some(p) ==> entries_after(m, ck, pointer)[ck] == p,
        other != ck ==> entries_after(m, ck, pointer).contains_key(other) == m.contains_key(other),
        other != ck && m.contains_key(other) ==> entries_after(m, ck, pointer)[other] == m[other],
{
}

/// The RAM count after such a write: an entry that appears adds its
/// overhead, one that goes takes it away (the counter wraps, as the engine's does).
pub open spec fn ram_after(m: Map<Seq<char>, LogPointer>, ram: u64, ck: Seq<char>, pointer: Option<LogPointer>) -> u64 {
    match pointer {
        Some(_) => if m.contains_key(ck) {
            ram
        } else {
            u64_specs::wrapping_add(ram, node_overhead(ck))
        },
        None => if m.contains_key(ck) {
            u64_specs::wrapping_sub(ram, node_overhead(ck))
        } else {
            ram
        },
    }
}

/// Builds `stream:key`.
pub fn compound_key(stream_name: &str, key: &str) -> (r: String)
    ensures
        r@ == compound(stream_name@, key@),
{
    let mut s = crate::text::owned(stream_name);
    s.append(":");
    s.append(key);
    proof {
        reveal_strlit(":");
    }
    assert(s@ =~= compound(stream_name@, key@));
    s
}

fn overhead_of(ck: &str) -> (r: u64)
    ensures
        r == node_overhead(ck@),
{
    let b = ck.as_bytes();
    assert(b@ == encode_utf8(ck@));
    let n = b.len() as u64;
    n.wrapping_add(64)
}

/// The text of a stored key as the engine files it (`StreamKey::as_str`):
/// its characters, or nothing when its bytes are not UTF-8.
pub open spec fn key_text(k: Seq<u8>) -> Seq<char> {
    if vstd::utf8::valid_utf8(k) {
        vstd::utf8::decode_utf8(k)
    } else {
        Seq::empty()
    }
}

/// The total of some frame lengths.
pub open spec fn lens_sum(lens: Seq<u64>) -> nat
    decreases lens.len(),
{
    if lens.len() == 0 {
        0
    } else {
        lens_sum(lens.drop_last()) + lens.last() as nat
    }
}

/// The write that record `i` of a batch files: its location, found by
/// adding the lengths of the frames before it to the batch's start, or
/// none for a tombstone.
pub open spec fn batch_pointer(lens: Seq<u64>, tombstones: Seq<bool>, segment_id: u64, start: u64, i: int) -> Option<
    LogPointer,
> {
    if tombstones[i] {
        None
    } else {
        Some(LogPointer { segment_id, file_offset: (start + lens_sum(lens.take(i))) as u64 })
    }
}

/// The index and RAM count after filing the first `n` records of a batch.
pub open spec fn batch_filed(
    m: Map<Seq<char>, LogPointer>,
    ram: u64,
    records: Seq<crate::types::Record>,
    lens: Seq<u64>,
    tombstones: Seq<bool>,
    segment_id: u64,
    start: u64,
    n: int,
) -> (Map<Seq<char>, LogPointer>, u64)
    decreases n,
{
    if n <= 0 {
        (m, ram)
    } else {
        let prev = batch_filed(m, ram, records, lens, tombstones, segment_id, start, n - 1);
        let ck = compound(records[n - 1].stream_name@, key_text(records[n - 1].key@));
        let p = batch_pointer(lens, tombstones, segment_id, start, n - 1);
        (entries_after(prev.0, ck, p), ram_after(prev.0, prev.1, ck, p))
    }
}

/// The primary index.
pub struct KeyIndex {
    entries: KeySkipMap,
    ram_bytes: u64,
}

impl View for KeyIndex {
    type V = Map<Seq<char>, LogPointer>;

    closed spec fn view(&self) -> Map<Seq<char>, LogPointer> {
        key_entries(self.entries)
    }
}

impl KeyIndex {
    /// The RAM that the index counts for its entries.
    pub closed spec fn spec_ram(&self) -> u64 {
        self.ram_bytes
    }

    /// An empty index.
    pub fn new() -> (r: Self)
        ensures
            r@ == no_keys(),
            r.spec_ram() == 0,
    {
        KeyIndex { entries: key_skip_new(), ram_bytes: 0 }
    }

    /// The RAM that the index counts for its entries.
    pub fn ram_bytes(&self) -> (r: u64)
        ensures
            r == self.spec_ram(),
    {
        self.ram_bytes
    }

    /// The number of entries.
    pub fn len(&self) -> (r: usize)
        ensures
            r == self@.len(),
    {
        key_skip_len(&self.entries)
    }

    /// The location filed under a compound key.
    pub fn lookup(&self, compound_key: &str) -> (r: Option<LogPointer>)
        ensures
            self@.contains_key(compound_key@) ==> r == Some(self@[compound_key@]),
            !self@.contains_key(compound_key@) ==> r is None,
    {
        key_skip_get(&self.entries, compound_key)
    }

    /// The location of a stream's key.
    pub fn get(&self, stream_name: &str, key: &str) -> (r: Option<LogPointer>)
        ensures
            self@.contains_key(compound(stream_name@, key@)) ==> r == Some(self@[compound(stream_name@, key@)]),
            !self@.contains_key(compound(stream_name@, key@)) ==> r is None,
    {
        let ck = compound_key(stream_name, key);
        key_skip_get(&self.entries, ck.as_str())
    }

    /// Files a write: a live record's location, or (with `None`) a tombstone
    /// that drops the key; the RAM count follows (see [`ram_after`]).
    pub fn record_write(&mut self, compound_key: String, pointer: Option<LogPointer>)
        ensures
            final(self)@ == entries_after(old(self)@, compound_key@, pointer),
            final(self).spec_ram() == ram_after(old(self)@, old(self).spec_ram(), compound_key@, pointer),
    {
        let overhead = overhead_of(compound_key.as_str());
        match pointer {
            Some(p) => {
                let existed = key_skip_get(&self.entries, compound_key.as_str()).is_some();
                key_skip_insert(&mut self.entries, compound_key, p);
                if !existed {
                    self.ram_bytes = self.ram_bytes.wrapping_add(overhead);
                }
            },
            None => {
                if key_skip_remove(&mut self.entries, compound_key.as_str()) {
                    self.ram_bytes = self.ram_bytes.wrapping_sub(overhead);
                }
            },
        }
    }
}

impl KeyIndex {
    /// Files the records of a batch whose frames were appended from
    /// `start_offset` of segment `segment_id` on, in order; returns where the
    /// batch ends.
    pub fn apply_batch(
        &mut self,
        records: &[crate::types::Record],
        frame_lens: &[u64],
        tombstones: &[bool],
        segment_id: u64,
        start_offset: u64,
    ) -> (end: u64)
        requires
            frame_lens@.len() == records@.len(),
            tombstones@.len() == records@.len(),
            start_offset + lens_sum(frame_lens@) <= u64::MAX,
        ensures
            (final(self)@, final(self).spec_ram()) == batch_filed(
                old(self)@,
                old(self).spec_ram(),
                records@,
                frame_lens@,
                tombstones@,
                segment_id,
                start_offset,
                records@.len() as int,
            ),
            end == start_offset + lens_sum(frame_lens@),
    {
        let n = records.len();
        let mut offset = start_offset;
        let mut i: usize = 0;
        assert(frame_lens@.take(0) =~= Seq::<u64>::empty());
        while i < n
            invariant
                i <= n == records@.len() == frame_lens@.len() == tombstones@.len(),
                start_offset + lens_sum(frame_lens@) <= u64::MAX,
                offset == start_offset + lens_sum(frame_lens@.take(i as int)),
                (self@, self.spec_ram()) == batch_filed(
                    old(self)@,
                    old(self).spec_ram(),
                    records@,
                    frame_lens@,
                    tombstones@,
                    segment_id,
                    start_offset,
                    i as int,
                ),
            decreases n - i,
        {
            proof {
                lemma_lens_sum_prefix(frame_lens@, i as int + 1);
                assert(frame_lens@.take(i + 1).drop_last() =~= frame_lens@.take(i as int));
            }
            let r = &records[i];
            let key_text = r.key.to_string();
            proof {
                if !vstd::utf8::valid_utf8(r.key@) {
                    assert(key_text@ =~= Seq::<char>::empty());
                }
            }
            let ck = compound_key(r.stream_name.as_str(), key_text.as_str());
            let pointer = if tombstones[i] {
                None
            } else {
                Some(LogPointer { segment_id, file_offset: offset })
            };
            self.record_write(ck, pointer);
            offset = offset + frame_lens[i];
            i += 1;
        }
        assert(frame_lens@.take(n as int) =~= frame_lens@);
        offset
    }

    /// The keys of a stream: every compound key that starts with `stream:`,
    /// without that prefix, each once, in the index's byte order.
    pub fn list_keys(&self, stream_name: &str) -> (r: Vec<String>)
        ensures
            forall|k: Seq<char>| self@.contains_key(compound(stream_name@, k)) <==> crate::types::strings_view(r@).contains(k),
            forall|i: int, j: int|
                0 <= i < j < r@.len() ==> crate::executor::bytes_lt(
                    encode_utf8(compound(stream_name@, #[trigger] r@[i]@)),
                    encode_utf8(compound(stream_name@, #[trigger] r@[j]@)),
                ),
    {
        let es = key_skip_entries(&self.entries);
        let prefix = compound_key(stream_name, "");
        proof {
            reveal_strlit("");
            assert(prefix@ =~= stream_name@ + seq![':']);
        }
        let pchars = crate::text::chars_of(prefix.as_str());
        let mut out: Vec<String> = Vec::new();
        let ghost mut src_idx: Seq<int> = Seq::empty();
        let mut i: usize = 0;
        while i < es.len()
            invariant
                i <= es@.len(),
                pchars@ == stream_name@ + seq![':'],
                out@.len() == src_idx.len(),
                forall|t: int| 0 <= t < src_idx.len() ==> 0 <= #[trigger] src_idx[t] < i,
                forall|t: int, u: int| 0 <= t < u < src_idx.len() ==> #[trigger] src_idx[t] < #[trigger] src_idx[u],
                forall|t: int|
                    0 <= t < out@.len() ==> es@[#[trigger] src_idx[t]].0@ == compound(stream_name@, out@[t]@),
                forall|j: int|
                    0 <= j < i && (#[trigger] es@[j]).0@.len() >= pchars@.len() && es@[j].0@.subrange(0, pchars@.len() as int)
                        == pchars@ ==> exists|t: int| 0 <= t < out@.len() && src_idx[t] == j,
            decreases es@.len() - i,
        {
            let ghost idx0 = src_idx;
            let ghost len0 = out@.len();
            let kc = crate::text::chars_of(es[i].0.as_str());
            assert(kc@ == es@[i as int].0@);
            if kc.len() >= pchars.len() && chars_prefix(kc.as_slice(), pchars.as_slice()) {
                let rest = crate::text::string_of(vstd::slice::slice_subrange(kc.as_slice(), pchars.len(), kc.len()));
                proof {
                    assert(kc@ =~= pchars@ + rest@);
                }
                out.push(rest);
                proof {
                    src_idx = src_idx.push(i as int);
                }
            }
            proof {
                assert forall|j: int|
                    0 <= j < i + 1 && (#[trigger] es@[j]).0@.len() >= pchars@.len() && es@[j].0@.subrange(0, pchars@.len() as int)
                        == pchars@ implies exists|t: int| 0 <= t < out@.len() && src_idx[t] == j by {
                    if j < i {
                        let t = choose|t: int| 0 <= t < len0 && idx0[t] == j;
                        assert(src_idx[t] == j);
                    } else {
                        assert(src_idx[src_idx.len() - 1] == j);
                    }
                }
            }
            i += 1;
        }
        proof {
            assert forall|k: Seq<char>| self@.contains_key(compound(stream_name@, k)) implies crate::types::strings_view(
                out@,
            ).contains(k) by {
                let ck = compound(stream_name@, k);
                let j = choose|j: int| 0 <= j < es@.len() && #[trigger] es@[j].0@ == ck;
                assert(ck.subrange(0, pchars@.len() as int) =~= pchars@);
                let t = choose|t: int| 0 <= t < out@.len() && src_idx[t] == j;
                assert(compound(stream_name@, out@[t]@) == ck);
                assert(out@[t]@ =~= k) by {
                    assert(out@[t]@ =~= ck.subrange(pchars@.len() as int, ck.len() as int));
                    assert(k =~= ck.subrange(pchars@.len() as int, ck.len() as int));
                }
                assert(crate::types::strings_view(out@)[t] == k);
            }
            assert forall|k: Seq<char>| crate::types::strings_view(out@).contains(k) implies self@.contains_key(
                compound(stream_name@, k),
            ) by {
                let t = choose|t: int| 0 <= t < out@.len() && crate::types::strings_view(out@)[t] == k;
                assert(es@[src_idx[t]].0@ == compound(stream_name@, out@[t]@));
            }
            assert forall|a: int, b: int| 0 <= a < b < out@.len() implies crate::executor::bytes_lt(
                encode_utf8(compound(stream_name@, #[trigger] out@[a]@)),
                encode_utf8(compound(stream_name@, #[trigger] out@[b]@)),
            ) by {
                assert(src_idx[a] < src_idx[b]);
                assert(es@[src_idx[a]].0@ == compound(stream_name@, out@[a]@));
                assert(es@[src_idx[b]].0@ == compound(stream_name@, out@[b]@));
            }
        }
        out
    }
}

impl KeyIndex {
    /// The entries that point into segments older than `active_id` (those
    /// that compaction moves), each once, in the index's byte order.
    pub fn stale_entries(&self, active_id: u64) -> (r: Vec<(String, LogPointer)>)
        ensures
            forall|i: int|
                0 <= i < r@.len() ==> self@.contains_key(#[trigger] r@[i].0@) && self@[r@[i].0@] == r@[i].1
                    && r@[i].1.segment_id < active_id,
            forall|k: Seq<char>|
                self@.contains_key(k) && self@[k].segment_id < active_id ==> exists|i: int|
                    0 <= i < r@.len() && #[trigger] r@[i].0@ == k,
            forall|i: int, j: int|
                0 <= i < j < r@.len() ==> crate::executor::bytes_lt(encode_utf8(#[trigger] r@[i].0@), encode_utf8(#[trigger] r@[j].0@)),
    {
        let es = key_skip_entries(&self.entries);
        let ghost m = self@;
        let mut out: Vec<(String, LogPointer)> = Vec::new();
        let ghost mut src_idx: Seq<int> = Seq::empty();
        let mut i: usize = 0;
        while i < es.len()
            invariant
                i <= es@.len(),
                m == self@,
                forall|t: int| 0 <= t < es@.len() ==> m.contains_key(#[trigger] es@[t].0@) && m[es@[t].0@] == es@[t].1,
                forall|a: int, b: int|
                    0 <= a < b < es@.len() ==> crate::executor::bytes_lt(encode_utf8(#[trigger] es@[a].0@), encode_utf8(#[trigger] es@[b].0@)),
                out@.len() == src_idx.len(),
                forall|t: int| 0 <= t < src_idx.len() ==> 0 <= #[trigger] src_idx[t] < i,
                forall|t: int, u: int| 0 <= t < u < src_idx.len() ==> #[trigger] src_idx[t] < #[trigger] src_idx[u],
                forall|t: int| 0 <= t < out@.len() ==> #[trigger] out@[t] == es@[src_idx[t]] && out@[t].1.segment_id < active_id,
                forall|j: int|
                    0 <= j < i && (#[trigger] es@[j]).1.segment_id < active_id ==> exists|t: int| 0 <= t < out@.len() && src_idx[t] == j,
            decreases es@.len() - i,
        {
            let ghost idx0 = src_idx;
            let ghost len0 = out@.len();
            if es[i].1.segment_id < active_id {
                let k = es[i].0.clone();
                out.push((k, es[i].1));
                proof {
                    src_idx = src_idx.push(i as int);
                }
            }
            proof {
                assert forall|j: int| 0 <= j < i + 1 && (#[trigger] es@[j]).1.segment_id < active_id implies exists|t: int|
                    0 <= t < out@.len() && src_idx[t] == j by {
                    if j < i {
                        let t = choose|t: int| 0 <= t < len0 && idx0[t] == j;
                        assert(src_idx[t] == j);
                    } else {
                        assert(src_idx[src_idx.len() - 1] == j);
                    }
                }
            }
            i += 1;
        }
        proof {
            assert forall|t: int| 0 <= t < out@.len() implies self@.contains_key(#[trigger] out@[t].0@)
                && self@[out@[t].0@] == out@[t].1 && out@[t].1.segment_id < active_id by {
                let j = src_idx[t];
                assert(out@[t] == es@[j]);
                assert(m.contains_key(es@[j].0@));
            }
            assert forall|k: Seq<char>| self@.contains_key(k) && self@[k].segment_id < active_id implies exists|i: int|
                0 <= i < out@.len() && #[trigger] out@[i].0@ == k by {
                let j = choose|j: int| 0 <= j < es@.len() && #[trigger] es@[j].0@ == k;
                let t = choose|t: int| 0 <= t < out@.len() && src_idx[t] == j;
                assert(out@[t].0@ == k);
            }
            assert forall|a: int, b: int| 0 <= a < b < out@.len() implies crate::executor::bytes_lt(
                encode_utf8(#[trigger] out@[a].0@),
                encode_utf8(#[trigger] out@[b].0@),
            ) by {
                assert(src_idx[a] < src_idx[b]);
            }
        }
        out
    }

    /// Points a compound key at its compacted frame, unless a writer has
    /// moved it since (its entry no longer points into a segment older than
    /// `active_id`) or dropped it.
    pub fn repoint_if_stale(&mut self, compound_key: String, pointer: LogPointer, active_id: u64)
        ensures
            old(self)@.contains_key(compound_key@) && old(self)@[compound_key@].segment_id < active_id ==> final(self)@
                == old(self)@.insert(compound_key@, pointer),
            !(old(self)@.contains_key(compound_key@) && old(self)@[compound_key@].segment_id < active_id)
                ==> final(self)@ == old(self)@,
            final(self)@ == repointed(old(self)@, compound_key@, pointer, active_id),
            final(self).spec_ram() == old(self).spec_ram(),
    {
        let stale = match key_skip_get(&self.entries, compound_key.as_str()) {
            Some(cur) => cur.segment_id < active_id,
            None => false,
        };
        if stale {
            key_skip_insert(&mut self.entries, compound_key, pointer);
        }
    }
}

/// Whether a write is admitted: a stream not yet known is refused once
/// `max_streams` streams exist; a live record for a key new to the index is
/// refused when its entry would take the index past `max_index_ram` bytes.
/// The first part of the result tells whether the stream is to be
/// registered (a new stream that passed its check, even when the RAM check
/// then refuses the write).
pub open spec fn spec_admit(
    m: Map<Seq<char>, LogPointer>,
    ram: u64,
    streams: Seq<Seq<char>>,
    stream: Seq<char>,
    key: Seq<char>,
    is_tombstone: bool,
    max_streams: usize,
    max_index_ram: u64,
) -> (bool, Result<(), Seq<char>>) {
    let known = streams.contains(stream);
    let ck = compound(stream, key);
    if !known && streams.len() >= max_streams {
        (false, Err("Maximum concurrent streams limit exceeded"@))
    } else if !is_tombstone && !m.contains_key(ck) && u64_specs::wrapping_add(ram, node_overhead(ck))
        > max_index_ram {
        (!known, Err("Index RAM limit exceeded"@))
    } else {
        (!known, Ok(()))
    }
}

impl KeyIndex {
    /// Checks a write against the stream and RAM limits (see [`spec_admit`]).
    pub fn admit_append(
        &self,
        streams: &[String],
        stream_name: &str,
        key: &str,
        is_tombstone: bool,
        max_streams: usize,
        max_index_ram: u64,
    ) -> (r: (bool, Result<(), String>))
        ensures
            r.0 == spec_admit(self@, self.spec_ram(), crate::types::strings_view(streams@), stream_name@, key@, is_tombstone, max_streams, max_index_ram).0,
            match spec_admit(self@, self.spec_ram(), crate::types::strings_view(streams@), stream_name@, key@, is_tombstone, max_streams, max_index_ram).1 {
                Ok(_) => r.1 is Ok,
                Err(m) => (r.1 matches Err(e) && e@ == m),
            },
    {
        let target = crate::text::owned(stream_name);
        let mut known = false;
        let mut i: usize = 0;
        while i < streams.len()
            invariant
                i <= streams@.len(),
                target@ == stream_name@,
                known == exists|j: int| 0 <= j < i && streams@[j]@ == stream_name@,
            decreases streams@.len() - i,
        {
            if streams[i] == target {
                known = true;
            }
            i += 1;
        }
        proof {
            let sv = crate::types::strings_view(streams@);
            if known {
                let j = choose|j: int| 0 <= j < streams@.len() && streams@[j]@ == stream_name@;
                assert(sv[j] == stream_name@);
            }
            if sv.contains(stream_name@) {
                let j = choose|j: int| 0 <= j < sv.len() && sv[j] == stream_name@;
                assert(streams@[j]@ == stream_name@);
            }
        }
        if !known && streams.len() >= max_streams {
            return (false, Err(crate::text::owned("Maximum concurrent streams limit exceeded")));
        }
        if !is_tombstone {
            let ck = compound_key(stream_name, key);
            if key_skip_get(&self.entries, ck.as_str()).is_none() {
                let need = self.ram_bytes.wrapping_add(overhead_of(ck.as_str()));
                if need > max_index_ram {
                    return (!known, Err(crate::text::owned("Index RAM limit exceeded")));
                }
            }
        }
        (!known, Ok(()))
    }
}

fn chars_prefix(s: &[char], p: &[char]) -> (r: bool)
    requires
        p@.len() <= s@.len(),
    ensures
        r == (s@.subrange(0, p@.len() as int) == p@),
{
    let mut i: usize = 0;
    while i < p.len()
        invariant
            i <= p@.len() <= s@.len(),
            s@.subrange(0, i as int) == p@.subrange(0, i as int),
        decreases p@.len() - i,
    {
        if s[i] != p[i] {
            assert(s@.subrange(0, p@.len() as int)[i as int] != p@[i as int]);
            return false;
        }
        i += 1;
        assert(s@.subrange(0, i as int) =~= p@.subrange(0, i as int));
    }
    assert(p@.subrange(0, p@.len() as int) =~= p@);
    true
}

/// A prefix of some frame lengths sums to no more than all of them.
pub proof fn lemma_lens_sum_prefix(lens: Seq<u64>, n: int)
    requires
        0 <= n <= lens.len(),
    ensures
        lens_sum(lens.take(n)) <= lens_sum(lens),
    decreases lens.len() - n,
{
    if n < lens.len() {
        lemma_lens_sum_prefix(lens, n + 1);
        assert(lens.take(n + 1).drop_last() =~= lens.take(n));
    } else {
        assert(lens.take(n) =~= lens);
    }
}

} // verus!
