//! Rebuilding the primary index on start-up: the intact frames of all
//! segments, oldest segment first, are filed again one by one, under the
//! configured limits on streams and index RAM.
use crate::parser::nat_text;
use crate::storage::frame::FrameHeader;
use crate::storage::batch::{batch_record, write_flags, write_header, PendingWrite};
use crate::storage::index::{batch_filed, compound, compound_key, entries_after, key_text, lens_sum, no_keys, ram_after, KeyIndex};
use crate::types::Record;
use crate::types::{strings_view, LogPointer};
use vstd::prelude::*;

verus! {

/// What recovery has gathered so far: the index, the streams seen (each
/// once, in the order first seen) and the highest sequence id seen.
pub struct Recovery {
    pub index: KeyIndex,
    pub streams: Vec<String>,
    pub highest_seq: u64,
}

/// The model of a recovery: index entries, RAM count, streams, highest sequence id.
pub type RecoveryV = (Map<Seq<char>, LogPointer>, u64, Seq<Seq<char>>, u64);

/// The streams after seeing `name`.
pub open spec fn streams_after(s: Seq<Seq<char>>, name: Seq<char>) -> Seq<Seq<char>> {
    if s.contains(name) {
        s
    } else {
        s.push(name)
    }
}

/// The message when recovery meets more streams than allowed.
pub open spec fn stream_limit_text(count: nat, max: usize) -> Seq<char> {
    "Stream limit exceeded during recovery: unique streams count "@ + nat_text(count)
        + " exceeds max_concurrent_streams "@ + nat_text(max as nat)
}

/// The message when the index outgrows its RAM budget during recovery.
pub open spec fn ram_limit_text(current: u64, max: u64) -> Seq<char> {
    "Index RAM limit exceeded during recovery: "@ + nat_text(current as nat) + " bytes exceeds max_index_ram_mb "@
        + nat_text(max as nat)
}

/// Filing one frame (with header `h`, read at `offset` of segment
/// `segment_id`, whose payload names `stream` and `key`): the stream is
/// counted first and may break the stream limit; a tombstone (flag 2) drops
/// the key, a live record (flag 1) files its location, and a key new to the
/// index may break the RAM budget; other flags file nothing.
pub open spec fn spec_replay(
    st: RecoveryV,
    h: FrameHeader,
    stream: Seq<char>,
    key: Seq<char>,
    segment_id: u64,
    offset: u64,
    max_streams: usize,
    max_index_ram: u64,
) -> Result<RecoveryV, Seq<char>> {
    let (m, ram, streams, highest) = st;
    let highest2 = if h.sequence_id > highest {
        h.sequence_id
    } else {
        highest
    };
    let streams2 = streams_after(streams, stream);
    let ck = compound(stream, key);
    if streams2.len() > max_streams {
        Err(stream_limit_text(streams2.len(), max_streams))
    } else if h.flags & 2u8 != 0u8 {
        Ok((entries_after(m, ck, None), ram_after(m, ram, ck, None), streams2, highest2))
    } else if h.flags & 1u8 != 0u8 {
        let p = Some(LogPointer { segment_id, file_offset: offset });
        let ram2 = ram_after(m, ram, ck, p);
        if !m.contains_key(ck) && ram2 > max_index_ram {
            Err(ram_limit_text(ram2, max_index_ram))
        } else {
            Ok((entries_after(m, ck, p), ram2, streams2, highest2))
        }
    } else {
        Ok((m, ram, streams2, highest2))
    }
}

pub(crate) fn contains_string(v: &Vec<String>, s: &str) -> (r: bool)
    ensures
        r == strings_view(v@).contains(s@),
{
    let target = crate::text::owned(s);
    let mut i: usize = 0;
    while i < v.len()
        invariant
            i <= v@.len(),
            target@ == s@,
            forall|j: int| 0 <= j < i ==> v@[j]@ != s@,
        decreases v@.len() - i,
    {
        if v[i] == target {
            assert(strings_view(v@)[i as int] == s@);
            return true;
        }
        i += 1;
    }
    proof {
        if strings_view(v@).contains(s@) {
            let j = choose|j: int| 0 <= j < strings_view(v@).len() && strings_view(v@)[j] == s@;
            assert(v@[j]@ == s@);
        }
    }
    false
}

impl Recovery {
    /// The model of what has been gathered.
    pub open spec fn state(&self) -> RecoveryV {
        (self.index@, self.index.spec_ram(), strings_view(self.streams@), self.highest_seq)
    }

    /// Nothing gathered yet.
    pub fn new() -> (r: Self)
        ensures
            r.state() == (no_keys(), 0u64, Seq::<Seq<char>>::empty(), 0u64),
    {
        let r = Recovery { index: KeyIndex::new(), streams: Vec::new(), highest_seq: 0 };
        assert(strings_view(r.streams@) =~= Seq::<Seq<char>>::empty());
        r
    }

    /// Files one intact frame (see [`spec_replay`]); on an error recovery
    /// stops, and what was gathered is of no further use.
    pub fn replay_frame(
        &mut self,
        header: &FrameHeader,
        stream_name: &str,
        key: &str,
        segment_id: u64,
        offset: u64,
        max_streams: usize,
        max_index_ram: u64,
    ) -> (r: Result<(), String>)
        ensures
            match spec_replay(
                old(self).state(),
                *header,
                stream_name@,
                key@,
                segment_id,
                offset,
                max_streams,
                max_index_ram,
            ) {
                Ok(st) => r is Ok && final(self).state() == st,
                Err(m) => (r matches Err(e) && e@ == m),
            },
    {
        let ghost st0 = self.state();
        if header.sequence_id > self.highest_seq {
            self.highest_seq = header.sequence_id;
        }
        if !contains_string(&self.streams, stream_name) {
            self.streams.push(crate::text::owned(stream_name));
            assert(strings_view(self.streams@) =~= st0.2.push(stream_name@));
        } else {
            assert(strings_view(self.streams@) =~= st0.2);
        }
        let count = self.streams.len();
        if count > max_streams {
            let mut m = crate::text::owned("Stream limit exceeded during recovery: unique streams count ");
            m.append(crate::parser::nat_text_exec(count as u64).as_str());
            m.append(" exceeds max_concurrent_streams ");
            m.append(crate::parser::nat_text_exec(max_streams as u64).as_str());
            return Err(m);
        }
        let ck = compound_key(stream_name, key);
        if header.flags & 2 != 0 {
            self.index.record_write(ck, None);
        } else if header.flags & 1 != 0 {
            let existed = self.index.lookup(ck.as_str()).is_some();
            self.index.record_write(ck, Some(LogPointer { segment_id, file_offset: offset }));
            let current = self.index.ram_bytes();
            if !existed && current > max_index_ram {
                let mut m = crate::text::owned("Index RAM limit exceeded during recovery: ");
                m.append(crate::parser::nat_text_exec(current).as_str());
                m.append(" bytes exceeds max_index_ram_mb ");
                m.append(crate::parser::nat_text_exec(max_index_ram).as_str());
                return Err(m);
            }
        }
        Ok(())
    }
}

/// Filing frames one after another, each item a header, the stream and key
/// that its payload names, and its offset; the first error stops it.
pub open spec fn replay_all(
    st: RecoveryV,
    items: Seq<(FrameHeader, Seq<char>, Seq<char>, u64)>,
    segment_id: u64,
    max_streams: usize,
    max_index_ram: u64,
) -> Result<RecoveryV, Seq<char>>
    decreases items.len(),
{
    if items.len() == 0 {
        Ok(st)
    } else {
        match replay_all(st, items.drop_last(), segment_id, max_streams, max_index_ram) {
            Ok(s) => spec_replay(
                s,
                items.last().0,
                items.last().1,
                items.last().2,
                segment_id,
                items.last().3,
                max_streams,
                max_index_ram,
            ),
            Err(m) => Err(m),
        }
    }
}

/// Replaying a frame raises the highest sequence id seen to the frame's
/// own, whatever its flags: a tombstone counts as much as a live record.
/// A tombstone leaves its key out of the index; a live record points its
/// key at the frame; the frame's stream is known afterwards.
pub proof fn lemma_replay_frame_effect(
    st: RecoveryV,
    h: FrameHeader,
    stream: Seq<char>,
    key: Seq<char>,
    segment_id: u64,
    offset: u64,
    max_streams: usize,
    max_index_ram: u64,
)
    ensures
        spec_replay(st, h, stream, key, segment_id, offset, max_streams, max_index_ram) matches Ok(s2) ==> {
            &&& s2.3 >= st.3
            &&& s2.3 >= h.sequence_id
            &&& (s2.3 == st.3 || s2.3 == h.sequence_id)
            &&& s2.2.contains(stream)
            &&& h.flags & 2u8 != 0u8 ==> !s2.0.contains_key(compound(stream, key))
            &&& (h.flags & 2u8 == 0u8 && h.flags & 1u8 != 0u8) ==> s2.0.contains_key(compound(stream, key))
                && s2.0[compound(stream, key)] == LogPointer { segment_id, file_offset: offset }
        },
{
    let streams2 = streams_after(st.2, stream);
    if st.2.contains(stream) {
    } else {
        assert(streams2[streams2.len() - 1] == stream);
    }
}

/// After replaying frames, the highest sequence id is the largest of the
/// one recovery started from and those of every replayed frame, tombstones
/// included: the next write gets an id no frame on disk holds.
pub proof fn lemma_replay_all_highest(
    st: RecoveryV,
    items: Seq<(FrameHeader, Seq<char>, Seq<char>, u64)>,
    segment_id: u64,
    max_streams: usize,
    max_index_ram: u64,
)
    ensures
        replay_all(st, items, segment_id, max_streams, max_index_ram) matches Ok(s2) ==> {
            &&& s2.3 >= st.3
            &&& forall|i: int| 0 <= i < items.len() ==> (#[trigger] items[i]).0.sequence_id <= s2.3
            &&& (s2.3 == st.3 || exists|i: int| 0 <= i < items.len() && (#[trigger] items[i]).0.sequence_id == s2.3)
        },
    decreases items.len(),
{
    if items.len() > 0 {
        let pre = items.drop_last();
        lemma_replay_all_highest(st, pre, segment_id, max_streams, max_index_ram);
        match replay_all(st, pre, segment_id, max_streams, max_index_ram) {
            Ok(s) => {
                let x = items.last();
                lemma_replay_frame_effect(s, x.0, x.1, x.2, segment_id, x.3, max_streams, max_index_ram);
                match replay_all(st, items, segment_id, max_streams, max_index_ram) {
                    Ok(s2) => {
                        assert forall|i: int| 0 <= i < items.len() implies (#[trigger] items[i]).0.sequence_id <= s2.3 by {
                            if i < items.len() - 1 {
                                assert(items[i] == pre[i]);
                            }
                        }
                        if s2.3 != st.3 {
                            if s2.3 == x.0.sequence_id {
                                assert(items[items.len() - 1].0.sequence_id == s2.3);
                            } else {
                                assert(s2.3 == s.3);
                                let i = choose|i: int| 0 <= i < pre.len() && (#[trigger] pre[i]).0.sequence_id == s.3;
                                assert(items[i] == pre[i]);
                            }
                        }
                    },
                    Err(_) => {},
                }
            },
            Err(_) => {},
        }
    }
}

/// What recovery reads back of a batch appended at `start`: each write's
/// header, stream, key text and offset.
pub open spec fn batch_items(
    ws: Seq<PendingWrite>,
    first_seq: u64,
    timestamps: Seq<i64>,
    lens: Seq<u64>,
    start: u64,
) -> Seq<(FrameHeader, Seq<char>, Seq<char>, u64)> {
    Seq::new(
        ws.len(),
        |i: int|
            (
                write_header(ws[i], (first_seq + i) as u64, timestamps[i]),
                ws[i].stream_name@,
                key_text(ws[i].key@),
                (start + lens_sum(lens.take(i))) as u64,
            ),
    )
}

/// The records that a batch's writes become.
pub open spec fn batch_records(ws: Seq<PendingWrite>, first_seq: u64, timestamps: Seq<i64>) -> Seq<Record> {
    Seq::new(ws.len(), |i: int| batch_record(ws[i], (first_seq + i) as u64, timestamps[i]))
}

proof fn lemma_flag_bits()
    ensures
        2u8 & 2u8 != 0u8,
        1u8 & 2u8 == 0u8,
        1u8 & 1u8 != 0u8,
{
    assert(2u8 & 2u8 != 0u8 && 1u8 & 2u8 == 0u8 && 1u8 & 1u8 != 0u8) by (bit_vector);
}

proof fn lemma_replay_prefix(
    st: RecoveryV,
    ws: Seq<PendingWrite>,
    first_seq: u64,
    timestamps: Seq<i64>,
    lens: Seq<u64>,
    tombstones: Seq<bool>,
    segment_id: u64,
    start: u64,
    max_streams: usize,
    max_index_ram: u64,
    k: int,
)
    requires
        timestamps.len() == ws.len(),
        lens.len() == ws.len(),
        tombstones.len() == ws.len(),
        forall|j: int| 0 <= j < ws.len() ==> #[trigger] tombstones[j] == ws[j].is_tombstone,
        0 <= k <= ws.len(),
    ensures
        replay_all(st, batch_items(ws, first_seq, timestamps, lens, start).take(k), segment_id, max_streams, max_index_ram)
            matches Ok(s2) ==> (s2.0, s2.1) == batch_filed(
            st.0,
            st.1,
            batch_records(ws, first_seq, timestamps),
            lens,
            tombstones,
            segment_id,
            start,
            k,
        ),
    decreases k,
{
    let items = batch_items(ws, first_seq, timestamps, lens, start);
    if k == 0 {
        assert(items.take(0) =~= Seq::<(FrameHeader, Seq<char>, Seq<char>, u64)>::empty());
    } else {
        lemma_replay_prefix(st, ws, first_seq, timestamps, lens, tombstones, segment_id, start, max_streams, max_index_ram, k - 1);
        assert(items.take(k).drop_last() =~= items.take(k - 1));
        assert(items.take(k).last() == items[k - 1]);
        lemma_flag_bits();
        let w = ws[k - 1];
        assert(write_flags(w.is_tombstone) == 1u8 || write_flags(w.is_tombstone) == 2u8);
        assert(batch_records(ws, first_seq, timestamps)[k - 1].stream_name == w.stream_name);
        assert(batch_records(ws, first_seq, timestamps)[k - 1].key == w.key);
    }
}

/// Recovery rebuilds what a flush filed: replaying the frames of a batch
/// (as a scan reads them back) from an index, when no limit stops it,
/// leaves the same entries and RAM count as filing the batch's records.
pub proof fn lemma_replay_rebuilds_batch(
    st: RecoveryV,
    ws: Seq<PendingWrite>,
    first_seq: u64,
    timestamps: Seq<i64>,
    lens: Seq<u64>,
    tombstones: Seq<bool>,
    segment_id: u64,
    start: u64,
    max_streams: usize,
    max_index_ram: u64,
)
    requires
        timestamps.len() == ws.len(),
        lens.len() == ws.len(),
        tombstones.len() == ws.len(),
        forall|j: int| 0 <= j < ws.len() ==> #[trigger] tombstones[j] == ws[j].is_tombstone,
    ensures
        replay_all(st, batch_items(ws, first_seq, timestamps, lens, start), segment_id, max_streams, max_index_ram)
            matches Ok(s2) ==> (s2.0, s2.1) == batch_filed(
            st.0,
            st.1,
            batch_records(ws, first_seq, timestamps),
            lens,
            tombstones,
            segment_id,
            start,
            ws.len() as int,
        ),
{
    let items = batch_items(ws, first_seq, timestamps, lens, start);
    lemma_replay_prefix(st, ws, first_seq, timestamps, lens, tombstones, segment_id, start, max_streams, max_index_ram, ws.len() as int);
    assert(items.take(ws.len() as int) =~= items);
}

// ------------------------------------------------------ segment files

/// The id of a segment file from its name: the name is the id's decimal
/// text (an optional `+`, then digits, at most `u64::MAX`) and `.liven`.
pub open spec fn spec_segment_id(name: Seq<char>) -> Option<u64> {
    if name.len() < 6 || name.subrange(name.len() - 6, name.len() as int) != ".liven"@ {
        None
    } else {
        let stem = name.subrange(0, name.len() - 6);
        let a: int = if stem.len() > 0 && stem[0] == '+' {
            1
        } else {
            0
        };
        if a < stem.len() && crate::parser::digits_end(stem, a) == stem.len()
            && crate::parser::digits_value(stem, a, stem.len() as int) <= u64::MAX {
            Some(crate::parser::digits_value(stem, a, stem.len() as int) as u64)
        } else {
            None
        }
    }
}

/// The id of a segment file from its name (see [`spec_segment_id`]).
pub fn segment_id_of(name: &str) -> (r: Option<u64>)
    ensures
        r == spec_segment_id(name@),
{
    let cs = crate::text::chars_of(name);
    proof {
        reveal_strlit(".liven");
    }
    let n = cs.len();
    if n < 6 {
        return None;
    }
    let ext = crate::parser::substring(cs.as_slice(), n - 6, n);
    if ext != crate::text::owned(".liven") {
        return None;
    }
    let stem = crate::text::chars_of(crate::parser::substring(cs.as_slice(), 0, n - 6).as_str());
    let ghost sv = stem@;
    assert(sv =~= cs@.subrange(0, n - 6));
    let a: usize = if stem.len() > 0 && stem[0] == '+' {
        1
    } else {
        0
    };
    if a >= stem.len() {
        return None;
    }
    let e = crate::parser::digits_end_exec(stem.as_slice(), a);
    if e != stem.len() {
        return None;
    }
    crate::parser::digits_value_exec(stem.as_slice(), a, e)
}

/// The name of a segment file: its id as twenty digits, with leading
/// zeros, and `.liven`.
pub open spec fn segment_name(id: u64) -> Seq<char> {
    Seq::new((20 - crate::parser::nat_text(id as nat).len()) as nat, |i: int| '0') + crate::parser::nat_text(
        id as nat,
    ) + ".liven"@
}

/// The name of a segment file (see [`segment_name`]).
pub fn segment_file_name(id: u64) -> (r: String)
    ensures
        r@ == segment_name(id),
{
    let digits = crate::parser::nat_text_exec(id);
    let dc = crate::text::chars_of(digits.as_str());
    proof {
        crate::window::lemma_nat_text_len(id as nat);
        reveal_strlit(".liven");
        reveal_strlit("0");
    }
    let pad = 20 - dc.len();
    let mut out = String::new();
    let mut i: usize = 0;
    while i < pad
        invariant
            i <= pad,
            out@ == Seq::new(i as nat, |k: int| '0'),
        decreases pad - i,
    {
        out.append("0");
        proof {
            reveal_strlit("0");
        }
        i += 1;
        assert(out@ =~= Seq::new(i as nat, |k: int| '0'));
    }
    out.append(digits.as_str());
    out.append(".liven");
    out
}

} // verus!
