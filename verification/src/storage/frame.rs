//! The on-disk frame format of segment files.
//!
//! A frame is a 26-byte header followed by its payload:
//! `[sequence_id: u64][timestamp: i64][type_tag: u8][flags: u8]`
//! `[payload_len: u32][crc32: u32]`, all numbers big-endian, the checksum
//! taken over the payload. A payload is
//! `[stream_len: u16][stream][key_len: u16][key][value]`, where the value is
//! raw signed bytes for a vector (type tag 8) and MessagePack otherwise.
use crate::codec::{as_i8s, as_u8s, be32, read_be32, read_be32_exec};
use crate::storage::key::{str_from_utf8, utf8_error_text};
use crate::text::owned;
use crate::types::LogPointer;
use vstd::prelude::*;
use vstd::string::StringExecFns;
use vstd::string::StringSliceAdditionalSpecFns;
use vstd::utf8::{encode_utf8, valid_utf8};

verus! {

/// Length of a frame header in bytes.
pub const HEADER_LEN: usize = 26;

/// Flag of a live record.
pub const FLAG_ACTIVE: u8 = 0x01;

/// Flag of a tombstone (a deleted key).
pub const FLAG_TOMBSTONE: u8 = 0x02;

/// Type tag of a vector value, whose bytes are stored raw.
pub const TAG_VECTOR: u8 = 8;

/// A frame header.
#[derive(Clone, Copy, Debug, PartialEq, Eq, Structural)]
pub struct FrameHeader {
    pub sequence_id: u64,
    pub timestamp: i64,
    pub type_tag: u8,
    pub flags: u8,
    pub payload_len: u32,
    pub crc32: u32,
}

/// The big-endian bytes of a 64-bit number.
pub open spec fn be64(n: u64) -> Seq<u8> {
    be32((n as int / 0x1_0000_0000) as u32) + be32((n as int % 0x1_0000_0000) as u32)
}

/// The 64-bit number that eight big-endian bytes from `i` on denote.
pub open spec fn read_be64(b: Seq<u8>, i: int) -> int {
    read_be32(b, i) * 0x1_0000_0000 + read_be32(b, i + 4)
}

/// The header's bytes.
pub open spec fn header_bytes(h: FrameHeader) -> Seq<u8> {
    be64(h.sequence_id) + be64(h.timestamp as u64) + seq![h.type_tag, h.flags] + be32(h.payload_len) + be32(
        h.crc32,
    )
}

/// The header that the first 26 bytes denote.
#[verifier::opaque]
pub open spec fn header_of(b: Seq<u8>) -> FrameHeader {
    FrameHeader {
        sequence_id: read_be64(b, 0) as u64,
        timestamp: (read_be64(b, 8) as u64) as i64,
        type_tag: b[16],
        flags: b[17],
        payload_len: read_be32(b, 18) as u32,
        crc32: read_be32(b, 22) as u32,
    }
}

fn push_be32(dst: &mut Vec<u8>, n: u32)
    ensures
        final(dst)@ == old(dst)@ + be32(n),
{
    let b = crate::codec::be32_bytes(n);
    dst.push(b[0]);
    dst.push(b[1]);
    dst.push(b[2]);
    dst.push(b[3]);
    assert(b@ == be32(n));
    assert(final(dst)@ =~= old(dst)@ + be32(n));
}

fn push_be64(dst: &mut Vec<u8>, n: u64)
    ensures
        final(dst)@ == old(dst)@ + be64(n),
{
    let ghost start = dst@;
    push_be32(dst, (n / 0x1_0000_0000) as u32);
    push_be32(dst, (n % 0x1_0000_0000) as u32);
    assert(dst@ =~= start + be64(n));
}

/// The header's 26 bytes.
pub fn encode_header(h: &FrameHeader) -> (r: Vec<u8>)
    ensures
        r@ == header_bytes(*h),
{
    let mut v: Vec<u8> = Vec::new();
    push_be64(&mut v, h.sequence_id);
    push_be64(&mut v, h.timestamp as u64);
    v.push(h.type_tag);
    v.push(h.flags);
    push_be32(&mut v, h.payload_len);
    push_be32(&mut v, h.crc32);
    assert(v@ =~= header_bytes(*h));
    v
}

/// Reads a header from the first 26 bytes; `None` when there are fewer.
pub fn decode_header(b: &[u8]) -> (r: Option<FrameHeader>)
    ensures
        b@.len() < 26 ==> r is None,
        b@.len() >= 26 ==> r == Some(header_of(b@)),
{
    reveal(header_of);
    if b.len() < 26 {
        return None;
    }
    let hi = read_be32_exec(b, 0) as u64;
    let lo = read_be32_exec(b, 4) as u64;
    let thi = read_be32_exec(b, 8) as u64;
    let tlo = read_be32_exec(b, 12) as u64;
    assert(hi * 0x1_0000_0000 + lo <= u64::MAX) by (nonlinear_arith)
        requires
            hi < 0x1_0000_0000,
            lo < 0x1_0000_0000,
    ;
    assert(thi * 0x1_0000_0000 + tlo <= u64::MAX) by (nonlinear_arith)
        requires
            thi < 0x1_0000_0000,
            tlo < 0x1_0000_0000,
    ;
    let seq = hi * 0x1_0000_0000 + lo;
    let ts = (thi * 0x1_0000_0000 + tlo) as i64;
    Some(
        FrameHeader {
            sequence_id: seq,
            timestamp: ts,
            type_tag: b[16],
            flags: b[17],
            payload_len: read_be32_exec(b, 18),
            crc32: read_be32_exec(b, 22),
        },
    )
}

proof fn lemma_be64_roundtrip(n: u64)
    ensures
        read_be64(be64(n), 0) == n,
{
    let hi = (n as int / 0x1_0000_0000) as u32;
    let lo = (n as int % 0x1_0000_0000) as u32;
    crate::codec::lemma_be32_roundtrip(hi);
    crate::codec::lemma_be32_roundtrip(lo);
    let b = be64(n);
    assert(b.subrange(0, 4) =~= be32(hi));
    assert(b.subrange(4, 8) =~= be32(lo));
    assert(read_be32(b, 0) == read_be32(be32(hi), 0));
    assert(read_be32(b, 4) == read_be32(be32(lo), 0));
    assert(hi * 0x1_0000_0000 + lo == n) by (nonlinear_arith)
        requires
            hi == n as int / 0x1_0000_0000,
            lo == n as int % 0x1_0000_0000,
    ;
}

proof fn lemma_i64_u64(t: i64)
    ensures
        (t as u64) as i64 == t,
{
    assert((t as u64) as i64 == t) by (bit_vector);
}

/// Reading back a written header gives the same header, whatever follows it.
pub proof fn lemma_header_roundtrip(h: FrameHeader, rest: Seq<u8>)
    ensures
        header_of(header_bytes(h) + rest) == h,
{
    reveal(header_of);
    let b = header_bytes(h) + rest;
    lemma_be64_roundtrip(h.sequence_id);
    lemma_be64_roundtrip(h.timestamp as u64);
    lemma_i64_u64(h.timestamp);
    crate::codec::lemma_be32_roundtrip(h.payload_len);
    crate::codec::lemma_be32_roundtrip(h.crc32);
    assert(b.subrange(0, 8) =~= be64(h.sequence_id));
    assert(b.subrange(8, 16) =~= be64(h.timestamp as u64));
    assert(b.subrange(18, 22) =~= be32(h.payload_len));
    assert(b.subrange(22, 26) =~= be32(h.crc32));
    assert(read_be64(b, 0) == read_be64(be64(h.sequence_id), 0));
    assert(read_be64(b, 8) == read_be64(be64(h.timestamp as u64), 0));
    assert(read_be32(b, 18) == read_be32(be32(h.payload_len), 0));
    assert(read_be32(b, 22) == read_be32(be32(h.crc32), 0));
}

/// One bit step of the CRC-32 (IEEE) register, in its reflected form with
/// the polynomial `0xEDB88320`.
pub open spec fn crc32_shift(c: u32) -> u32 {
    if c & 1u32 == 1u32 {
        (c >> 1u32) ^ 0xEDB8_8320u32
    } else {
        c >> 1u32
    }
}

/// `n` bit steps of the CRC-32 register.
pub open spec fn crc32_shifts(c: u32, n: nat) -> u32
    decreases n,
{
    if n == 0 {
        c
    } else {
        crc32_shifts(crc32_shift(c), (n - 1) as nat)
    }
}

/// The CRC-32 register after the bytes: it starts with every bit set, and
/// each byte is folded in by XOR and then eight bit steps.
pub open spec fn crc32_register(data: Seq<u8>) -> u32
    decreases data.len(),
{
    if data.len() == 0 {
        0xFFFF_FFFFu32
    } else {
        crc32_shifts(crc32_register(data.drop_last()) ^ (data.last() as u32), 8)
    }
}

/// The CRC-32 (IEEE) checksum of the bytes: the final register with every
/// bit inverted.
pub open spec fn crc32_of(data: Seq<u8>) -> u32 {
    crc32_register(data) ^ 0xFFFF_FFFFu32
}

/// The CRC-32 (IEEE) checksum of the bytes (`crc32fast::hash`), which
/// computes the checksum that [`crc32_of`] defines.
#[verifier::external_body]
pub(crate) fn crc32_hash(data: &[u8]) -> (r: u32)
    ensures
        r == crc32_of(data@),
{
    crc32fast::hash(data)
}

/// Whether a payload matches the checksum in its header.
pub fn payload_intact(h: &FrameHeader, payload: &[u8]) -> (r: bool)
    ensures
        r == (crc32_of(payload@) == h.crc32),
{
    crc32_hash(payload) == h.crc32
}

/// A whole frame: the header (with the payload's length and checksum) and the payload.
pub open spec fn frame_bytes(sequence_id: u64, timestamp: i64, type_tag: u8, flags: u8, payload: Seq<u8>) -> Seq<u8> {
    header_bytes(
        FrameHeader {
            sequence_id,
            timestamp,
            type_tag,
            flags,
            payload_len: (payload.len() % 0x1_0000_0000) as u32,
            crc32: crc32_of(payload),
        },
    ) + payload
}

/// Builds a frame around a payload (the length is written cut to 32 bits, as the engine does).
pub fn encode_frame(sequence_id: u64, timestamp: i64, type_tag: u8, flags: u8, payload: &[u8]) -> (r: Vec<u8>)
    ensures
        r@ == frame_bytes(sequence_id, timestamp, type_tag, flags, payload@),
{
    let h = FrameHeader {
        sequence_id,
        timestamp,
        type_tag,
        flags,
        payload_len: (payload.len() as u128 % 0x1_0000_0000) as u32,
        crc32: crc32_hash(payload),
    };
    let mut v = encode_header(&h);
    let mut i: usize = 0;
    let ghost start = v@;
    while i < payload.len()
        invariant
            i <= payload@.len(),
            v@ == start + payload@.subrange(0, i as int),
        decreases payload.len() - i,
    {
        v.push(payload[i]);
        i += 1;
        assert(v@ =~= start + payload@.subrange(0, i as int));
    }
    assert(payload@.subrange(0, payload@.len() as int) =~= payload@);
    v
}


// ------------------------------------------------------------------ payload

/// The big-endian bytes of a 16-bit number.
pub open spec fn be16(n: int) -> Seq<u8> {
    seq![((n / 256) % 256) as u8, (n % 256) as u8]
}

/// The 16-bit number that two big-endian bytes from `i` on denote.
pub open spec fn read_be16(b: Seq<u8>, i: int) -> int {
    b[i] as int * 256 + b[i + 1] as int
}

/// A payload: the stream's and the key's bytes, each after its length (cut
/// to 16 bits, as the engine writes it), then the value's bytes.
pub open spec fn payload_bytes(stream: Seq<u8>, key: Seq<u8>, value: Seq<u8>) -> Seq<u8> {
    be16(stream.len() as int % 65536) + stream + be16(key.len() as int % 65536) + key + value
}

fn push_be16(dst: &mut Vec<u8>, n: usize)
    ensures
        final(dst)@ == old(dst)@ + be16(n as int % 65536),
{
    let m = n % 65536;
    dst.push(((m / 256) % 256) as u8);
    dst.push((m % 256) as u8);
    assert(final(dst)@ =~= old(dst)@ + be16(n as int % 65536));
}

pub(crate) fn push_slice(dst: &mut Vec<u8>, src: &[u8])
    ensures
        final(dst)@ == old(dst)@ + src@,
{
    let mut i: usize = 0;
    let ghost start = dst@;
    while i < src.len()
        invariant
            i <= src@.len(),
            dst@ == start + src@.subrange(0, i as int),
        decreases src.len() - i,
    {
        dst.push(src[i]);
        i += 1;
        assert(dst@ =~= start + src@.subrange(0, i as int));
    }
    assert(src@.subrange(0, src@.len() as int) =~= src@);
}

/// Writes a payload into `buf`, replacing what it held. `value_bytes` are
/// the value's stored bytes: a vector's raw bytes, or its MessagePack encoding.
pub fn serialize_payload_into(stream_name: &str, key: &str, value_bytes: &[u8], buf: &mut Vec<u8>)
    ensures
        final(buf)@ == payload_bytes(stream_name.spec_bytes(), key.spec_bytes(), value_bytes@),
{
    buf.clear();
    let sb = stream_name.as_bytes();
    let kb = key.as_bytes();
    push_be16(buf, sb.len());
    push_slice(buf, sb);
    push_be16(buf, kb.len());
    push_slice(buf, kb);
    push_slice(buf, value_bytes);
    assert(buf@ =~= payload_bytes(stream_name.spec_bytes(), key.spec_bytes(), value_bytes@));
}

/// A vector value's stored bytes: each signed byte bit for bit.
pub fn vector_value_bytes(v: &[i8]) -> (r: Vec<u8>)
    ensures
        r@ == as_u8s(v@),
{
    let mut out: Vec<u8> = Vec::new();
    let mut i: usize = 0;
    while i < v.len()
        invariant
            i <= v@.len(),
            out@ == as_u8s(v@.subrange(0, i as int)),
        decreases v.len() - i,
    {
        out.push(v[i] as u8);
        i += 1;
        assert(out@ =~= as_u8s(v@.subrange(0, i as int)));
    }
    assert(v@.subrange(0, v@.len() as int) =~= v@);
    out
}

/// A payload's value as stored.
pub enum PayloadValue {
    /// A vector's signed bytes.
    Vector(Vec<i8>),
    /// MessagePack bytes of another value.
    Packed(Vec<u8>),
}

/// A payload split into its parts.
pub struct PayloadParts {
    pub stream_name: String,
    pub key: String,
    pub value: PayloadValue,
}

/// How a payload splits: the stream's, the key's and the value's bytes, or
/// the message of the first check that fails.
pub enum SplitPayloadV {
    Parts(Seq<u8>, Seq<u8>, Seq<u8>),
    Refused(Seq<char>),
}

/// The split of a payload (see the module's description of the layout).
pub open spec fn spec_split_payload(p: Seq<u8>) -> SplitPayloadV {
    if p.len() < 4 {
        SplitPayloadV::Refused("Payload too short"@)
    } else {
        let sl = read_be16(p, 0);
        if p.len() < 4 + sl {
            SplitPayloadV::Refused("Payload too short for stream name"@)
        } else {
            let sb = p.subrange(2, 2 + sl);
            if !valid_utf8(sb) {
                SplitPayloadV::Refused(utf8_error_text(sb))
            } else {
                let kl = read_be16(p, 2 + sl);
                if p.len() < 4 + sl + kl {
                    SplitPayloadV::Refused("Payload too short for key"@)
                } else {
                    let kb = p.subrange(4 + sl, 4 + sl + kl);
                    if !valid_utf8(kb) {
                        SplitPayloadV::Refused(utf8_error_text(kb))
                    } else {
                        SplitPayloadV::Parts(sb, kb, p.subrange(4 + sl + kl, p.len() as int))
                    }
                }
            }
        }
    }
}

fn read_be16_exec(b: &[u8], i: usize) -> (r: usize)
    requires
        i + 2 <= b@.len(),
    ensures
        r as int == read_be16(b@, i as int),
        r < 65536,
{
    (b[i] as usize) * 256 + b[i + 1] as usize
}

/// Splits a payload into stream name, key and value; with type tag 8 the
/// value is a vector, otherwise MessagePack bytes to decode.
pub fn split_payload(payload: &[u8], type_tag: u8) -> (r: Result<PayloadParts, String>)
    ensures
        match spec_split_payload(payload@) {
            SplitPayloadV::Refused(m) => (r matches Err(e) && e@ == m),
            SplitPayloadV::Parts(sb, kb, vb) => (r matches Ok(parts) && encode_utf8(parts.stream_name@) == sb
                && encode_utf8(parts.key@) == kb && (if type_tag == TAG_VECTOR {
                parts.value matches PayloadValue::Vector(v) && v@ == as_i8s(vb)
            } else {
                parts.value matches PayloadValue::Packed(b) && b@ == vb
            })),
        },
{
    let len = payload.len();
    if len < 4 {
        return Err(owned("Payload too short"));
    }
    let sl = read_be16_exec(payload, 0);
    if len < 4 + sl {
        return Err(owned("Payload too short for stream name"));
    }
    let sb = vstd::slice::slice_subrange(payload, 2, 2 + sl);
    let stream = match str_from_utf8(sb) {
        Ok(x) => owned(x),
        Err(m) => {
            return Err(m);
        },
    };
    let kl = read_be16_exec(payload, 2 + sl);
    if len < 4 + sl + kl {
        return Err(owned("Payload too short for key"));
    }
    let kb = vstd::slice::slice_subrange(payload, 4 + sl, 4 + sl + kl);
    let key = match str_from_utf8(kb) {
        Ok(x) => owned(x),
        Err(m) => {
            return Err(m);
        },
    };
    let vb = crate::codec::copy_bytes(payload, 4 + sl + kl);
    let value = if type_tag == TAG_VECTOR {
        let mut v: Vec<i8> = Vec::new();
        let mut i: usize = 0;
        while i < vb.len()
            invariant
                i <= vb@.len(),
                v@ == as_i8s(vb@.subrange(0, i as int)),
            decreases vb.len() - i,
        {
            v.push(vb[i] as i8);
            i += 1;
            assert(v@ =~= as_i8s(vb@.subrange(0, i as int)));
        }
        assert(vb@.subrange(0, vb@.len() as int) =~= vb@);
        PayloadValue::Vector(v)
    } else {
        PayloadValue::Packed(vb)
    };
    Ok(PayloadParts { stream_name: stream, key, value })
}

/// A view of a frame's bytes.
pub struct FrameReader<'a> {
    pub data: &'a [u8],
}

/// The vector that a frame holds: its payload's value bytes when the type
/// tag is 8 and the frame and payload are long enough.
pub open spec fn frame_vector(d: Seq<u8>) -> Option<Seq<i8>> {
    if d.len() < 26 || d[16] != TAG_VECTOR || d.len() < 26 + read_be32(d, 18) {
        None
    } else {
        let p = d.subrange(26, 26 + read_be32(d, 18));
        if p.len() < 4 || p.len() < 4 + read_be16(p, 0) {
            None
        } else {
            let vo = 4 + read_be16(p, 0) + read_be16(p, 2 + read_be16(p, 0));
            if p.len() < vo {
                None
            } else {
                Some(as_i8s(p.subrange(vo, p.len() as int)))
            }
        }
    }
}

impl<'a> FrameReader<'a> {
    pub fn new(data: &'a [u8]) -> (r: Self)
        ensures
            r.data@ == data@,
    {
        FrameReader { data }
    }

    /// The vector stored in the frame, if it holds one (see [`frame_vector`]).
    pub fn as_vector_slice(&self) -> (r: Option<Vec<i8>>)
        ensures
            match frame_vector(self.data@) {
                Some(v) => (r matches Some(x) && x@ == v),
                None => r is None,
            },
    {
        let d = self.data;
        if d.len() < 26 {
            return None;
        }
        if d[16] != TAG_VECTOR {
            return None;
        }
        let pl = read_be32_exec(d, 18) as u64;
        if (d.len() as u64) < 26 + pl {
            return None;
        }
        let p = vstd::slice::slice_subrange(d, 26, 26 + pl as usize);
        if p.len() < 4 {
            return None;
        }
        let sl = read_be16_exec(p, 0);
        if p.len() < 4 + sl {
            return None;
        }
        let kl = read_be16_exec(p, 2 + sl);
        let vo = 4 + sl + kl;
        if p.len() < vo {
            return None;
        }
        let mut v: Vec<i8> = Vec::new();
        let mut i = vo;
        while i < p.len()
            invariant
                vo <= i <= p@.len(),
                v@ == as_i8s(p@.subrange(vo as int, i as int)),
            decreases p.len() - i,
        {
            v.push(p[i] as i8);
            i += 1;
            assert(v@ =~= as_i8s(p@.subrange(vo as int, i as int)));
        }
        Some(v)
    }
}


proof fn lemma_be16_roundtrip(n: int)
    requires
        0 <= n < 65536,
    ensures
        read_be16(be16(n), 0) == n,
{
    let b = be16(n);
    assert(b[0] as int * 256 + b[1] as int == n) by (nonlinear_arith)
        requires
            b[0] == ((n / 256) % 256) as u8,
            b[1] == (n % 256) as u8,
            0 <= n < 65536,
    ;
}

/// A written payload splits back into the same stream, key and value,
/// when the stream and key are UTF-8 of fewer than 65536 bytes.
#[verifier::rlimit(40)]
#[verifier::spinoff_prover]
pub proof fn lemma_payload_roundtrip(sb: Seq<u8>, kb: Seq<u8>, vb: Seq<u8>)
    requires
        sb.len() < 65536,
        kb.len() < 65536,
        valid_utf8(sb),
        valid_utf8(kb),
    ensures
        spec_split_payload(payload_bytes(sb, kb, vb)) == SplitPayloadV::Parts(sb, kb, vb),
{
    let p = payload_bytes(sb, kb, vb);
    let sl = sb.len() as int;
    let kl = kb.len() as int;
    lemma_be16_roundtrip(sl);
    lemma_be16_roundtrip(kl);
    assert(p.subrange(0, 2) =~= be16(sl));
    assert(read_be16(p, 0) == read_be16(be16(sl), 0));
    assert(p.subrange(2 + sl, 4 + sl) =~= be16(kl));
    assert(read_be16(p, 2 + sl) == read_be16(be16(kl), 0));
    assert(p.subrange(2, 2 + sl) =~= sb);
    assert(p.subrange(4 + sl, 4 + sl + kl) =~= kb);
    assert(p.subrange(4 + sl + kl, p.len() as int) =~= vb);
}

// ---------------------------------------------------------- segment scans

/// What stands at an offset of a segment.
pub enum FrameStep {
    /// Fewer than a header's bytes remain.
    End,
    /// A header whose payload runs past the end: an interrupted write.
    Truncated,
    /// A payload that does not match its checksum.
    Corrupt,
    /// An intact frame; the next frame starts at `next`.
    Frame { header: FrameHeader, next: u64 },
}

/// The step at `offset` of the segment bytes `d`.
pub open spec fn spec_frame_step(d: Seq<u8>, offset: int) -> FrameStep {
    if offset + 26 > d.len() {
        FrameStep::End
    } else {
        let h = header_of(d.subrange(offset, d.len() as int));
        let end = offset + 26 + h.payload_len;
        if end > d.len() {
            FrameStep::Truncated
        } else if crc32_of(d.subrange(offset + 26, end)) != h.crc32 {
            FrameStep::Corrupt
        } else {
            FrameStep::Frame { header: h, next: end as u64 }
        }
    }
}

/// Reads the frame at `offset` of a segment's bytes (see [`spec_frame_step`]).
pub fn frame_step(d: &[u8], offset: u64) -> (r: FrameStep)
    ensures
        r == spec_frame_step(d@, offset as int),
{
    if (offset as u128) + 26 > d.len() as u128 {
        return FrameStep::End;
    }
    let o = offset as usize;
    let rest = vstd::slice::slice_subrange(d, o, d.len());
    let h = match decode_header(rest) {
        Some(h) => h,
        None => {
            return FrameStep::End;
        },
    };
    let end = (o as u128) + 26 + h.payload_len as u128;
    if end > d.len() as u128 {
        return FrameStep::Truncated;
    }
    let payload = vstd::slice::slice_subrange(d, o + 26, end as usize);
    if !payload_intact(&h, payload) {
        return FrameStep::Corrupt;
    }
    FrameStep::Frame { header: h, next: end as u64 }
}

/// The intact frames of a segment, in order, with their offsets: reading
/// stops at the end or at an interrupted write; a corrupt frame fails the
/// whole segment with the engine's message.
pub open spec fn spec_scan_from(d: Seq<u8>, segment_id: u64, offset: int, acc: Seq<(FrameHeader, u64)>) -> Result<
    Seq<(FrameHeader, u64)>,
    Seq<char>,
>
    decreases d.len() - offset,
{
    if offset < 0 {
        Ok(acc)
    } else {
        match spec_frame_step(d, offset) {
            FrameStep::End | FrameStep::Truncated => Ok(acc),
            FrameStep::Corrupt => Err(corruption_text(segment_id, offset as u64)),
            FrameStep::Frame { header, next } => if next as int <= offset {
                Ok(acc)
            } else {
                spec_scan_from(d, segment_id, next as int, acc.push((header, offset as u64)))
            },
        }
    }
}

/// The message for a corrupt frame.
pub open spec fn corruption_text(segment_id: u64, offset: u64) -> Seq<char> {
    "Data corruption in segment "@ + crate::parser::nat_text(segment_id as nat) + " at offset "@
        + crate::parser::nat_text(offset as nat)
}

/// Scans a whole segment (see [`spec_scan_from`]).
pub fn scan_segment(d: &[u8], segment_id: u64) -> (r: Result<Vec<(FrameHeader, u64)>, String>)
    ensures
        match spec_scan_from(d@, segment_id, 0, Seq::empty()) {
            Ok(fs) => (r matches Ok(v) && v@ == fs),
            Err(m) => (r matches Err(e) && e@ == m),
        },
{
    let mut out: Vec<(FrameHeader, u64)> = Vec::new();
    let mut offset: u64 = 0;
    loop
        invariant
            spec_scan_from(d@, segment_id, 0, Seq::empty()) == spec_scan_from(d@, segment_id, offset as int, out@),
        decreases d@.len() + 1 - offset,
    {
        match frame_step(d, offset) {
            FrameStep::End | FrameStep::Truncated => {
                return Ok(out);
            },
            FrameStep::Corrupt => {
                let mut m = owned("Data corruption in segment ");
                m.append(crate::parser::nat_text_exec(segment_id).as_str());
                m.append(" at offset ");
                m.append(crate::parser::nat_text_exec(offset).as_str());
                return Err(m);
            },
            FrameStep::Frame { header, next } => {
                if next <= offset {
                    return Ok(out);
                }
                out.push((header, offset));
                offset = next;
            },
        }
    }
}

/// Every complete frame of a segment, in order, with its offset and whether
/// its payload matches its checksum: reading stops at the end or at an
/// interrupted write, and a corrupt frame is stepped over (as historical
/// scans read).
pub open spec fn spec_frames_from(d: Seq<u8>, offset: int, acc: Seq<(FrameHeader, u64, bool)>) -> Seq<
    (FrameHeader, u64, bool),
>
    decreases d.len() - offset,
{
    if offset < 0 || offset + 26 > d.len() {
        acc
    } else {
        let h = header_of(d.subrange(offset, d.len() as int));
        let end = offset + 26 + h.payload_len;
        if end > d.len() {
            acc
        } else {
            let intact = crc32_of(d.subrange(offset + 26, end)) == h.crc32;
            spec_frames_from(d, end, acc.push((h, offset as u64, intact)))
        }
    }
}

/// Lists a segment's complete frames (see [`spec_frames_from`]).
pub fn segment_frames(d: &[u8]) -> (r: Vec<(FrameHeader, u64, bool)>)
    ensures
        r@ == spec_frames_from(d@, 0, Seq::empty()),
{
    let mut out: Vec<(FrameHeader, u64, bool)> = Vec::new();
    let mut offset: usize = 0;
    loop
        invariant
            offset <= d@.len(),
            spec_frames_from(d@, 0, Seq::empty()) == spec_frames_from(d@, offset as int, out@),
        decreases d@.len() - offset,
    {
        if d.len() - offset < 26 {
            return out;
        }
        let rest = vstd::slice::slice_subrange(d, offset, d.len());
        let h = match decode_header(rest) {
            Some(h) => h,
            None => {
                return out;
            },
        };
        if (h.payload_len as usize) > d.len() - offset - 26 {
            return out;
        }
        let end = offset + 26 + h.payload_len as usize;
        let payload = vstd::slice::slice_subrange(d, offset + 26, end);
        let intact = payload_intact(&h, payload);
        out.push((h, offset as u64, intact));
        offset = end;
    }
}

} // verus!
