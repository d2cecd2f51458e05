//! Group commit: the writes that the flusher takes in one go become one run
//! of frames, appended to the active segment with a single write; each
//! record's index entry then points at its own frame in that run.
use crate::executor::key_text_bytes;
use crate::storage::frame::{
    crc32_of, encode_frame, frame_bytes, header_bytes, push_slice, serialize_payload_into, payload_bytes,
    FrameHeader,
};
use crate::storage::key::StreamKey;
use crate::types::{spec_type_tag, DataValue, Record};
use vstd::prelude::*;
use vstd::string::StringSliceAdditionalSpecFns;
use vstd::utf8::encode_utf8;

verus! {

/// One write that waits for the flusher: a value or a tombstone for a key of
/// a stream. `value_bytes` are the value's stored bytes (a vector's raw
/// bytes, or the MessagePack encoding of any other value).
pub struct PendingWrite {
    pub stream_name: String,
    pub key: StreamKey,
    pub value: DataValue,
    pub value_bytes: Vec<u8>,
    pub is_tombstone: bool,
}

/// The flags of a frame: a tombstone, or a live record.
pub open spec fn write_flags(is_tombstone: bool) -> u8 {
    if is_tombstone {
        2
    } else {
        1
    }
}

/// The payload of a write: its stream, its key's text and its value's bytes.
pub open spec fn write_payload(w: PendingWrite) -> Seq<u8> {
    payload_bytes(encode_utf8(w.stream_name@), key_text_bytes(w.key@), w.value_bytes@)
}

/// The frame of a write with its sequence id and timestamp.
pub open spec fn write_frame(w: PendingWrite, sequence_id: u64, timestamp: i64) -> Seq<u8> {
    frame_bytes(sequence_id, timestamp, spec_type_tag(w.value), write_flags(w.is_tombstone), write_payload(w))
}

/// The frames of a batch: write `i` gets sequence id `first_seq + i` and
/// timestamp `timestamps[i]`.
pub open spec fn batch_frames(ws: Seq<PendingWrite>, first_seq: u64, timestamps: Seq<i64>) -> Seq<Seq<u8>> {
    Seq::new(ws.len(), |i: int| write_frame(ws[i], (first_seq + i) as u64, timestamps[i]))
}

/// The bytes that a batch appends to its segment: its frames, in order.
pub open spec fn batch_bytes(ws: Seq<PendingWrite>, first_seq: u64, timestamps: Seq<i64>) -> Seq<u8> {
    batch_frames(ws, first_seq, timestamps).flatten()
}

/// The record that write `w` becomes.
pub open spec fn batch_record(w: PendingWrite, sequence_id: u64, timestamp: i64) -> Record {
    Record {
        sequence_id,
        timestamp,
        type_tag: spec_type_tag(w.value),
        flags: write_flags(w.is_tombstone),
        stream_name: w.stream_name,
        key: w.key,
        value: w.value,
    }
}

/// A batch laid out for one write: its bytes, and for each write its
/// record, the length of its frame and whether it is a tombstone.
pub struct AssembledBatch {
    pub bytes: Vec<u8>,
    pub records: Vec<Record>,
    pub frame_lens: Vec<u64>,
    pub tombstones: Vec<bool>,
}

/// Lays out a batch: sequence ids run from `first_seq` on, write `i` is
/// stamped `timestamps[i]`, and the frames follow one another in order.
pub fn assemble_batch(writes: Vec<PendingWrite>, first_seq: u64, timestamps: &[i64]) -> (r: AssembledBatch)
    requires
        timestamps@.len() == writes@.len(),
        first_seq + writes@.len() <= u64::MAX,
    ensures
        r.bytes@ == batch_bytes(writes@, first_seq, timestamps@),
        r.records@.len() == writes@.len(),
        r.frame_lens@.len() == writes@.len(),
        r.tombstones@.len() == writes@.len(),
        forall|i: int|
            0 <= i < writes@.len() ==> r.records@[i] == batch_record(
                writes@[i],
                (first_seq + i) as u64,
                timestamps@[i],
            ),
        forall|i: int|
            0 <= i < writes@.len() ==> r.frame_lens@[i] == batch_frames(writes@, first_seq, timestamps@)[i].len(),
        forall|i: int| 0 <= i < writes@.len() ==> r.tombstones@[i] == writes@[i].is_tombstone,
{
    let ghost ws = writes@;
    let ghost frames = batch_frames(ws, first_seq, timestamps@);
    let n = writes.len();
    let mut src = writes;
    let mut rev: Vec<PendingWrite> = Vec::new();
    while src.len() > 0
        invariant
            src@.len() + rev@.len() == n == ws.len(),
            src@ == ws.subrange(0, src@.len() as int),
            forall|t: int| 0 <= t < rev@.len() ==> #[trigger] rev@[t] == ws[n - 1 - t],
        decreases src@.len(),
    {
        let x = src.pop().unwrap();
        rev.push(x);
    }
    let mut bytes: Vec<u8> = Vec::new();
    let mut records: Vec<Record> = Vec::new();
    let mut frame_lens: Vec<u64> = Vec::new();
    let mut tombstones: Vec<bool> = Vec::new();
    let mut i: usize = 0;
    assert(frames.take(0) =~= Seq::<Seq<u8>>::empty());
    while i < n
        invariant
            i <= n == ws.len() == timestamps@.len(),
            first_seq + n <= u64::MAX,
            frames == batch_frames(ws, first_seq, timestamps@),
            rev@.len() == n - i,
            forall|t: int| 0 <= t < rev@.len() ==> #[trigger] rev@[t] == ws[n - 1 - t],
            bytes@ == frames.take(i as int).flatten(),
            records@.len() == i,
            frame_lens@.len() == i,
            tombstones@.len() == i,
            forall|j: int|
                0 <= j < i ==> #[trigger] records@[j] == batch_record(ws[j], (first_seq + j) as u64, timestamps@[j]),
            forall|j: int| 0 <= j < i ==> #[trigger] frame_lens@[j] == frames[j].len(),
            forall|j: int| 0 <= j < i ==> #[trigger] tombstones@[j] == ws[j].is_tombstone,
        decreases n - i,
    {
        let w = rev.pop().unwrap();
        assert(w == ws[i as int]);
        let seq_id: u64 = first_seq + i as u64;
        let ts = timestamps[i];
        let tag = w.value.type_tag();
        let flags: u8 = if w.is_tombstone {
            2
        } else {
            1
        };
        let mut payload: Vec<u8> = Vec::new();
        let key_text = w.key.as_str();
        proof {
            if !vstd::utf8::valid_utf8(w.key@) {
                assert(key_text@ =~= Seq::<char>::empty());
                assert(key_text.spec_bytes() =~= Seq::<u8>::empty());
            }
        }
        serialize_payload_into(w.stream_name.as_str(), key_text, w.value_bytes.as_slice(), &mut payload);
        assert(payload@ == write_payload(w));
        let frame = encode_frame(seq_id, ts, tag, flags, payload.as_slice());
        assert(frame@ == frames[i as int]);
        frame_lens.push(frame.len() as u64);
        push_slice(&mut bytes, frame.as_slice());
        proof {
            assert(frames.take(i + 1) =~= frames.take(i as int).push(frames[i as int]));
            frames.take(i as int).lemma_flatten_push(frames[i as int]);
        }
        tombstones.push(w.is_tombstone);
        records.push(
            Record {
                sequence_id: seq_id,
                timestamp: ts,
                type_tag: tag,
                flags,
                stream_name: w.stream_name,
                key: w.key,
                value: w.value,
            },
        );
        i += 1;
    }
    assert(frames.take(n as int) =~= frames);
    AssembledBatch { bytes, records, frame_lens, tombstones }
}

/// The frame that compaction writes for a live record: its sequence id,
/// timestamp, type tag and flags kept, its payload rebuilt from its stream,
/// key text and value bytes.
pub fn compacted_frame(record: &Record, value_bytes: &[u8]) -> (r: Vec<u8>)
    ensures
        r@ == frame_bytes(
            record.sequence_id,
            record.timestamp,
            record.type_tag,
            record.flags,
            payload_bytes(encode_utf8(record.stream_name@), key_text_bytes(record.key@), value_bytes@),
        ),
{
    let mut payload: Vec<u8> = Vec::new();
    let key_text = record.key.as_str();
    proof {
        if !vstd::utf8::valid_utf8(record.key@) {
            assert(key_text@ =~= Seq::<char>::empty());
            assert(key_text.spec_bytes() =~= Seq::<u8>::empty());
        }
    }
    serialize_payload_into(record.stream_name.as_str(), key_text, value_bytes, &mut payload);
    encode_frame(record.sequence_id, record.timestamp, record.type_tag, record.flags, payload.as_slice())
}

// ------------------------------------------------------------- read-back

/// Frames made of the given headers and payloads, in order.
pub open spec fn frames_of(hs: Seq<FrameHeader>, ps: Seq<Seq<u8>>) -> Seq<Seq<u8>> {
    Seq::new(hs.len(), |k: int| header_bytes(hs[k]) + ps[k])
}

/// Whether each payload has the length and the checksum that its header names.
pub open spec fn frames_sound(hs: Seq<FrameHeader>, ps: Seq<Seq<u8>>) -> bool {
    &&& hs.len() == ps.len()
    &&& forall|k: int|
        0 <= k < hs.len() ==> #[trigger] ps[k].len() == hs[k].payload_len && crc32_of(ps[k]) == hs[k].crc32
}

/// The headers of a run of frames that starts at `base`, each with its offset.
pub open spec fn scanned_run(base: int, hs: Seq<FrameHeader>, ps: Seq<Seq<u8>>) -> Seq<(FrameHeader, u64)> {
    Seq::new(hs.len(), |k: int| (hs[k], (base + frames_of(hs, ps).take(k).flatten().len()) as u64))
}

proof fn lemma_step_at(before: Seq<u8>, h: FrameHeader, p: Seq<u8>, tail: Seq<u8>)
    requires
        p.len() == h.payload_len,
        crc32_of(p) == h.crc32,
    ensures
        crate::storage::frame::spec_frame_step(before + (header_bytes(h) + p) + tail, before.len() as int)
            == (crate::storage::frame::FrameStep::Frame { header: h, next: (before.len() + 26 + p.len()) as u64 }),
{
    let d = before + (header_bytes(h) + p) + tail;
    let o = before.len() as int;
    assert(d.subrange(o, d.len() as int) =~= header_bytes(h) + (p + tail));
    crate::storage::frame::lemma_header_roundtrip(h, p + tail);
    assert(header_bytes(h).len() == 26);
    assert(d.subrange(o + 26, o + 26 + h.payload_len) =~= p);
}

proof fn lemma_run_shift(o: int, hs: Seq<FrameHeader>, ps: Seq<Seq<u8>>)
    requires
        hs.len() == ps.len(),
        hs.len() > 0,
    ensures
        scanned_run(o, hs, ps) =~= seq![(hs[0], o as u64)] + scanned_run(
            o + frames_of(hs, ps)[0].len(),
            hs.drop_first(),
            ps.drop_first(),
        ),
{
    let f = frames_of(hs, ps);
    let f2 = frames_of(hs.drop_first(), ps.drop_first());
    assert(f.drop_first() =~= f2);
    let run = scanned_run(o, hs, ps);
    let run2 = scanned_run(o + f[0].len(), hs.drop_first(), ps.drop_first());
    assert forall|k: int| 0 <= k < run2.len() implies #[trigger] run2[k] == run[k + 1] by {
        assert(f.take(k + 1).drop_first() =~= f2.take(k));
        assert(f.take(k + 1).flatten() == f[0] + f2.take(k).flatten());
    }
    assert(f.take(0) =~= Seq::<Seq<u8>>::empty());
}

/// Sound frames written one after another from some offset of a segment are
/// read back, from that offset, as their headers at their offsets.
#[verifier::spinoff_prover]
pub proof fn lemma_scan_reads_frames(
    before: Seq<u8>,
    hs: Seq<FrameHeader>,
    ps: Seq<Seq<u8>>,
    segment_id: u64,
    acc: Seq<(FrameHeader, u64)>,
)
    requires
        frames_sound(hs, ps),
        before.len() + frames_of(hs, ps).flatten().len() <= u64::MAX,
    ensures
        crate::storage::frame::spec_scan_from(before + frames_of(hs, ps).flatten(), segment_id, before.len() as int, acc)
            == Ok::<Seq<(FrameHeader, u64)>, Seq<char>>(acc + scanned_run(before.len() as int, hs, ps)),
    decreases hs.len(),
{
    let f = frames_of(hs, ps);
    let d = before + f.flatten();
    let o = before.len() as int;
    if hs.len() == 0 {
        assert(f =~= Seq::<Seq<u8>>::empty());
        assert(f.flatten() =~= Seq::<u8>::empty());
        assert(scanned_run(o, hs, ps) =~= Seq::<(FrameHeader, u64)>::empty());
        assert(acc + scanned_run(o, hs, ps) =~= acc);
    } else {
        let hs2 = hs.drop_first();
        let ps2 = ps.drop_first();
        let f2 = frames_of(hs2, ps2);
        assert(f.drop_first() =~= f2);
        assert(f.flatten() == f[0] + f2.flatten());
        assert(ps[0].len() == hs[0].payload_len && crc32_of(ps[0]) == hs[0].crc32);
        assert(d =~= before + (header_bytes(hs[0]) + ps[0]) + f2.flatten());
        lemma_step_at(before, hs[0], ps[0], f2.flatten());
        let before2 = before + f[0];
        assert(d =~= before2 + f2.flatten());
        let acc2 = acc.push((hs[0], o as u64));
        assert(frames_sound(hs2, ps2)) by {
            assert forall|k: int| 0 <= k < hs2.len() implies #[trigger] ps2[k].len() == hs2[k].payload_len
                && crc32_of(ps2[k]) == hs2[k].crc32 by {
                assert(ps2[k] == ps[k + 1] && hs2[k] == hs[k + 1]);
            }
        }
        lemma_scan_reads_frames(before2, hs2, ps2, segment_id, acc2);
        lemma_run_shift(o, hs, ps);
        assert(acc2 + scanned_run(before2.len() as int, hs2, ps2) =~= acc + scanned_run(o, hs, ps));
    }
}

/// The header of a write's frame.
pub open spec fn write_header(w: PendingWrite, sequence_id: u64, timestamp: i64) -> FrameHeader {
    FrameHeader {
        sequence_id,
        timestamp,
        type_tag: spec_type_tag(w.value),
        flags: write_flags(w.is_tombstone),
        payload_len: (write_payload(w).len() % 0x1_0000_0000) as u32,
        crc32: crc32_of(write_payload(w)),
    }
}

/// The headers of a batch's frames.
pub open spec fn batch_headers(ws: Seq<PendingWrite>, first_seq: u64, timestamps: Seq<i64>) -> Seq<FrameHeader> {
    Seq::new(ws.len(), |i: int| write_header(ws[i], (first_seq + i) as u64, timestamps[i]))
}

/// The payloads of a batch's frames.
pub open spec fn batch_payloads(ws: Seq<PendingWrite>) -> Seq<Seq<u8>> {
    Seq::new(ws.len(), |i: int| write_payload(ws[i]))
}

/// What a flush appends is what recovery reads back: scanning the segment
/// from where the batch was appended gives each write's header, in order,
/// at the offset where its frame starts (payloads under 4 GiB, offsets
/// within 64 bits).
#[verifier::spinoff_prover]
#[verifier::rlimit(30)]
pub proof fn lemma_batch_reads_back(
    before: Seq<u8>,
    ws: Seq<PendingWrite>,
    first_seq: u64,
    timestamps: Seq<i64>,
    segment_id: u64,
    acc: Seq<(FrameHeader, u64)>,
)
    requires
        timestamps.len() == ws.len(),
        forall|i: int| 0 <= i < ws.len() ==> #[trigger] write_payload(ws[i]).len() < 0x1_0000_0000,
        before.len() + batch_bytes(ws, first_seq, timestamps).len() <= u64::MAX,
    ensures
        crate::storage::frame::spec_scan_from(
            before + batch_bytes(ws, first_seq, timestamps),
            segment_id,
            before.len() as int,
            acc,
        ) == Ok::<Seq<(FrameHeader, u64)>, Seq<char>>(
            acc + scanned_run(before.len() as int, batch_headers(ws, first_seq, timestamps), batch_payloads(ws)),
        ),
{
    let hs = batch_headers(ws, first_seq, timestamps);
    let ps = batch_payloads(ws);
    assert(frames_of(hs, ps) =~= batch_frames(ws, first_seq, timestamps));
    assert(frames_sound(hs, ps)) by {
        assert forall|k: int| 0 <= k < hs.len() implies #[trigger] ps[k].len() == hs[k].payload_len
            && crc32_of(ps[k]) == hs[k].crc32 by {
            assert(write_payload(ws[k]).len() < 0x1_0000_0000);
        }
    }
    lemma_scan_reads_frames(before, hs, ps, segment_id, acc);
}

proof fn lemma_lens_match_frames(frames: Seq<Seq<u8>>, lens: Seq<u64>, i: int)
    requires
        lens.len() == frames.len(),
        forall|j: int| 0 <= j < frames.len() ==> #[trigger] lens[j] == frames[j].len(),
        0 <= i <= frames.len(),
    ensures
        crate::storage::index::lens_sum(lens.take(i)) == frames.take(i).flatten().len(),
    decreases i,
{
    if i == 0 {
        assert(lens.take(0) =~= Seq::<u64>::empty());
        assert(frames.take(0) =~= Seq::<Seq<u8>>::empty());
    } else {
        lemma_lens_match_frames(frames, lens, i - 1);
        assert(lens.take(i).drop_last() =~= lens.take(i - 1));
        assert(frames.take(i) =~= frames.take(i - 1).push(frames[i - 1]));
        frames.take(i - 1).lemma_flatten_push(frames[i - 1]);
    }
}

/// The location that the index files for a live write of a batch is where a
/// scan of the segment reads that write's header back: the batch's start
/// plus the lengths of the frames before it.
pub proof fn lemma_filed_pointer_reads_back(
    before: Seq<u8>,
    ws: Seq<PendingWrite>,
    first_seq: u64,
    timestamps: Seq<i64>,
    lens: Seq<u64>,
    tombstones: Seq<bool>,
    segment_id: u64,
    i: int,
)
    requires
        timestamps.len() == ws.len(),
        lens.len() == ws.len(),
        tombstones.len() == ws.len(),
        forall|j: int| 0 <= j < ws.len() ==> #[trigger] lens[j] == batch_frames(ws, first_seq, timestamps)[j].len(),
        forall|j: int| 0 <= j < ws.len() ==> #[trigger] write_payload(ws[j]).len() < 0x1_0000_0000,
        before.len() + batch_bytes(ws, first_seq, timestamps).len() <= u64::MAX,
        0 <= i < ws.len(),
        !tombstones[i],
    ensures
        ({
            let run = scanned_run(before.len() as int, batch_headers(ws, first_seq, timestamps), batch_payloads(ws));
            &&& crate::storage::frame::spec_scan_from(
                before + batch_bytes(ws, first_seq, timestamps),
                segment_id,
                before.len() as int,
                Seq::empty(),
            ) == Ok::<Seq<(FrameHeader, u64)>, Seq<char>>(run)
            &&& run[i].0 == write_header(ws[i], (first_seq + i) as u64, timestamps[i])
            &&& crate::storage::index::batch_pointer(lens, tombstones, segment_id, before.len() as u64, i) == Some(
                crate::types::LogPointer { segment_id, file_offset: run[i].1 },
            )
        }),
{
    let hs = batch_headers(ws, first_seq, timestamps);
    let ps = batch_payloads(ws);
    let frames = batch_frames(ws, first_seq, timestamps);
    lemma_batch_reads_back(before, ws, first_seq, timestamps, segment_id, Seq::empty());
    assert(frames_of(hs, ps) =~= frames);
    lemma_lens_match_frames(frames, lens, i);
    lemma_lens_match_frames(frames, lens, ws.len() as int);
    assert(frames.take(ws.len() as int) =~= frames);
    crate::storage::index::lemma_lens_sum_prefix(lens, i);
    let run = scanned_run(before.len() as int, hs, ps);
    assert(Seq::<(FrameHeader, u64)>::empty() + run =~= run);
}

/// A written payload splits back into the write's stream, key text and
/// value bytes, and the stream and key read back as the same text (for a
/// stream name under 64 KiB).
pub proof fn lemma_written_payload_splits(w: PendingWrite)
    requires
        encode_utf8(w.stream_name@).len() < 65536,
    ensures
        crate::storage::frame::spec_split_payload(write_payload(w)) == crate::storage::frame::SplitPayloadV::Parts(
            encode_utf8(w.stream_name@),
            key_text_bytes(w.key@),
            w.value_bytes@,
        ),
        vstd::utf8::decode_utf8(encode_utf8(w.stream_name@)) == w.stream_name@,
        vstd::utf8::decode_utf8(key_text_bytes(w.key@)) == crate::storage::index::key_text(w.key@),
{
    w.key.lemma_key_len();
    vstd::utf8::encode_utf8_valid_utf8(w.stream_name@);
    vstd::utf8::encode_utf8_decode_utf8(w.stream_name@);
    if !vstd::utf8::valid_utf8(w.key@) {
        assert(vstd::utf8::valid_utf8(Seq::<u8>::empty())) by {
            vstd::utf8::encode_utf8_valid_utf8(Seq::<char>::empty());
            assert(encode_utf8(Seq::<char>::empty()) =~= Seq::<u8>::empty());
        }
        assert(vstd::utf8::decode_utf8(Seq::<u8>::empty()) =~= Seq::<char>::empty());
    }
    crate::storage::frame::lemma_payload_roundtrip(
        encode_utf8(w.stream_name@),
        key_text_bytes(w.key@),
        w.value_bytes@,
    );
}

/// Where the next group commit goes: the next sequence id to hand out, the
/// active segment (named by the first sequence id written to it) and how
/// many bytes that segment holds.
#[derive(Clone, Copy)]
pub struct CommitCursor {
    pub next_seq: u64,
    pub active_segment: u64,
    pub active_size: u64,
}

/// Where one group commit is written: its first sequence id, its segment
/// and the offset in that segment of its first frame.
#[derive(Clone, Copy)]
pub struct CommitPlan {
    pub first_seq: u64,
    pub segment: u64,
    pub offset: u64,
}

/// The plan of a commit of `n` records in `len` bytes: the active segment
/// rolls over to a new segment, named by the next sequence id, when the
/// bytes would take it past `max_segment_size`; none where the sequence ids
/// or the active segment's size would overflow.
pub open spec fn spec_commit_plan(c: CommitCursor, n: u64, len: u64, max_segment_size: u64) -> Option<CommitPlan> {
    if c.next_seq + n > u64::MAX || c.active_size + len > u64::MAX {
        None
    } else if c.active_size + len > max_segment_size {
        Some(CommitPlan { first_seq: c.next_seq, segment: c.next_seq, offset: 0 })
    } else {
        Some(CommitPlan { first_seq: c.next_seq, segment: c.active_segment, offset: c.active_size })
    }
}

/// The cursor once a plan's segment is the active one, before its bytes are
/// written: the sequence ids are not yet handed out.
pub open spec fn spec_commit_rolled(c: CommitCursor, p: CommitPlan) -> CommitCursor {
    CommitCursor { next_seq: c.next_seq, active_segment: p.segment, active_size: p.offset }
}

/// The cursor once a commit of `n` records in `len` bytes was written at the
/// end of the active segment.
pub open spec fn spec_commit_done(c: CommitCursor, n: u64, len: u64) -> CommitCursor {
    CommitCursor {
        next_seq: (c.next_seq + n) as u64,
        active_segment: c.active_segment,
        active_size: (c.active_size + len) as u64,
    }
}

impl CommitCursor {
    /// Plans a commit of `n` records in `len` bytes (see [`spec_commit_plan`]).
    pub fn plan(&self, n: u64, len: u64, max_segment_size: u64) -> (r: Option<CommitPlan>)
        ensures
            r == spec_commit_plan(*self, n, len, max_segment_size),
    {
        if self.next_seq > u64::MAX - n || self.active_size > u64::MAX - len {
            None
        } else if self.active_size + len > max_segment_size {
            Some(CommitPlan { first_seq: self.next_seq, segment: self.next_seq, offset: 0 })
        } else {
            Some(CommitPlan { first_seq: self.next_seq, segment: self.active_segment, offset: self.active_size })
        }
    }

    /// Makes the plan's segment the active one, as happens before the bytes
    /// are written; the sequence ids stay unused until the write succeeds.
    pub fn roll(&mut self, p: &CommitPlan)
        ensures
            *final(self) == spec_commit_rolled(*old(self), *p),
    {
        self.active_segment = p.segment;
        self.active_size = p.offset;
    }

    /// The segment that compaction writes the live records of older
    /// segments into: named 100000 past the next sequence id.
    pub fn compaction_segment(&self) -> (r: u64)
        requires
            self.next_seq + 100000 <= u64::MAX,
        ensures
            r == self.next_seq + 100000,
    {
        self.next_seq + 100000
    }

    /// Records a commit of `n` records in `len` bytes as written.
    pub fn advance(&mut self, n: u64, len: u64)
        requires
            old(self).next_seq + n <= u64::MAX,
            old(self).active_size + len <= u64::MAX,
        ensures
            *final(self) == spec_commit_done(*old(self), n, len),
    {
        self.next_seq = self.next_seq + n;
        self.active_size = self.active_size + len;
    }
}

/// A group commit numbers its records consecutively from the counter: the
/// record of write `i` gets sequence id `q + i` for the counter `q`; once
/// the commit is written the counter is `q + n` and the next frame goes
/// right after the batch, while a commit whose write fails leaves the counter
/// at `q`.
pub proof fn lemma_commit_counter(
    c: CommitCursor,
    writes: Seq<PendingWrite>,
    timestamps: Seq<i64>,
    len: u64,
    max_segment_size: u64,
)
    requires
        spec_commit_plan(c, writes.len() as u64, len, max_segment_size) is Some,
        writes.len() <= u64::MAX,
    ensures
        ({
            let p = spec_commit_plan(c, writes.len() as u64, len, max_segment_size)->Some_0;
            let rolled = spec_commit_rolled(c, p);
            let done = spec_commit_done(rolled, writes.len() as u64, len);
            &&& rolled.next_seq == c.next_seq
            &&& done.next_seq == c.next_seq + writes.len()
            &&& done.active_segment == p.segment
            &&& done.active_size == p.offset + len
            &&& forall|i: int|
                0 <= i < writes.len() ==> #[trigger] batch_record(writes[i], (p.first_seq + i) as u64, timestamps[i]).sequence_id
                    == c.next_seq + i
        }),
{
}

} // verus!
