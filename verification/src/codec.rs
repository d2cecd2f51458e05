//! Wire framing between client and server.
//!
//! A current frame is `[version][length: u32 big-endian][discriminator][payload]`
//! where `length` counts the discriminator and the payload; a legacy frame
//! has no version byte. Discriminator `0x03` carries a quantized vector as
//! raw bytes, `0x02` a MessagePack-encoded frame.
use vstd::prelude::*;
use vstd::string::StringExecFns;

verus! {

/// The protocol version written in front of every frame.
pub const PROTOCOL_VERSION: u8 = 0x01;

/// Discriminator of a MessagePack frame.
pub const DISC_PACKED: u8 = 0x02;

/// Discriminator of a vector frame.
pub const DISC_VECTOR: u8 = 0x03;

/// The codec of a connection; `is_client` tells which side it serves.
pub struct LivenCodec {
    pub is_client: bool,
}

impl LivenCodec {
    pub fn new(is_client: bool) -> (c: Self)
        ensures
            c.is_client == is_client,
    {
        LivenCodec { is_client }
    }
}

/// The big-endian bytes of a 32-bit number.
pub open spec fn be32(n: u32) -> Seq<u8> {
    seq![
        ((n as int / 0x100_0000) % 256) as u8,
        ((n as int / 0x1_0000) % 256) as u8,
        ((n as int / 0x100) % 256) as u8,
        (n as int % 256) as u8,
    ]
}

/// The number that four big-endian bytes from `i` on denote.
pub open spec fn read_be32(b: Seq<u8>, i: int) -> int {
    b[i] as int * 0x100_0000 + b[i + 1] as int * 0x1_0000 + b[i + 2] as int * 0x100 + b[i + 3] as int
}

/// Reading back the bytes of a number gives the number.
pub proof fn lemma_be32_roundtrip(n: u32)
    ensures
        read_be32(be32(n), 0) == n,
{
    let b = be32(n);
    assert(read_be32(b, 0) == n) by (nonlinear_arith)
        requires
            b[0] == ((n as int / 0x100_0000) % 256) as u8,
            b[1] == ((n as int / 0x1_0000) % 256) as u8,
            b[2] == ((n as int / 0x100) % 256) as u8,
            b[3] == (n as int % 256) as u8,
            0 <= n < 0x1_0000_0000,
    ;
}

/// The bytes of `n` in big-endian order.
pub fn be32_bytes(n: u32) -> (r: [u8; 4])
    ensures
        r@ == be32(n),
{
    let r = [(n / 0x100_0000) as u8, ((n / 0x1_0000) % 256) as u8, ((n / 0x100) % 256) as u8, (n % 256) as u8];
    assert(r@ =~= be32(n));
    r
}

/// The 32-bit number in big-endian order at `i`.
pub fn read_be32_exec(b: &[u8], i: usize) -> (r: u32)
    requires
        i + 4 <= b@.len(),
    ensures
        r as int == read_be32(b@, i as int),
{
    let r = (b[i] as u32) * 0x100_0000 + (b[i + 1] as u32) * 0x1_0000 + (b[i + 2] as u32) * 0x100 + b[i + 3] as u32;
    r
}

/// Where a frame stands in the bytes received so far.
pub enum FrameSplit {
    /// Not even the header is complete.
    Wait,
    /// The header says the frame takes this many bytes in all; fewer have arrived.
    Reserve(u64),
    /// The frame's content (discriminator and payload) is `src[start..start + len]`.
    Ready(usize, usize),
}

/// The model of a [`FrameSplit`].
pub enum SplitV {
    Wait,
    Reserve(int),
    Ready(int, int),
}

impl View for FrameSplit {
    type V = SplitV;

    open spec fn view(&self) -> SplitV {
        match self {
            FrameSplit::Wait => SplitV::Wait,
            FrameSplit::Reserve(n) => SplitV::Reserve(*n as int),
            FrameSplit::Ready(a, l) => SplitV::Ready(*a as int, *l as int),
        }
    }
}

/// How the received bytes split: a first byte of 0 or 1 marks a current
/// frame (version, then the length), another byte a legacy one (the length
/// first).
pub open spec fn spec_split(src: Seq<u8>) -> SplitV {
    if src.len() == 0 {
        SplitV::Wait
    } else if src[0] == 0x00 || src[0] == 0x01 {
        if src.len() < 5 {
            SplitV::Wait
        } else if src.len() < 5 + read_be32(src, 1) {
            SplitV::Reserve(5 + read_be32(src, 1))
        } else {
            SplitV::Ready(5, read_be32(src, 1))
        }
    } else if src.len() < 4 {
        SplitV::Wait
    } else if src.len() < 4 + read_be32(src, 0) {
        SplitV::Reserve(4 + read_be32(src, 0))
    } else {
        SplitV::Ready(4, read_be32(src, 0))
    }
}

/// Finds the first frame in the bytes received so far (see [`spec_split`]).
pub fn split_frame(src: &[u8]) -> (r: FrameSplit)
    ensures
        r@ == spec_split(src@),
{
    let n = src.len();
    if n == 0 {
        return FrameSplit::Wait;
    }
    if src[0] == 0x00 || src[0] == 0x01 {
        if n < 5 {
            return FrameSplit::Wait;
        }
        let len = read_be32_exec(src, 1);
        if (n as u64) < 5 + len as u64 {
            FrameSplit::Reserve(5 + len as u64)
        } else {
            FrameSplit::Ready(5, len as usize)
        }
    } else {
        if n < 4 {
            return FrameSplit::Wait;
        }
        let len = read_be32_exec(src, 0);
        if (n as u64) < 4 + len as u64 {
            FrameSplit::Reserve(4 + len as u64)
        } else {
            FrameSplit::Ready(4, len as usize)
        }
    }
}

/// What a frame's content holds.
pub enum FramePayload {
    /// A quantized vector.
    Vector(Vec<i8>),
    /// MessagePack bytes of a frame.
    Packed(Vec<u8>),
    /// Content with another discriminator: a legacy frame is MessagePack
    /// from its first byte on.
    Legacy { discriminator: u8, bytes: Vec<u8> },
}

/// The bytes reinterpreted as signed bytes, bit for bit.
pub open spec fn as_i8s(b: Seq<u8>) -> Seq<i8> {
    Seq::new(b.len(), |i: int| b[i] as i8)
}

/// The bytes of signed bytes, bit for bit.
pub open spec fn as_u8s(v: Seq<i8>) -> Seq<u8> {
    Seq::new(v.len(), |i: int| v[i] as u8)
}

/// The message for an empty frame.
pub open spec fn empty_frame_text() -> Seq<char> {
    "Empty TCP frame payload"@
}

/// Classifies a frame's content by its first byte.
pub fn decode_frame_bytes(data: &[u8]) -> (r: Result<FramePayload, String>)
    ensures
        data@.len() == 0 ==> (r matches Err(m) && m@ == empty_frame_text()),
        data@.len() > 0 && data@[0] == DISC_VECTOR ==> (r matches Ok(FramePayload::Vector(v)) && v@ == as_i8s(
            data@.subrange(1, data@.len() as int),
        )),
        data@.len() > 0 && data@[0] == DISC_PACKED ==> (r matches Ok(FramePayload::Packed(b)) && b@
            == data@.subrange(1, data@.len() as int)),
        data@.len() > 0 && data@[0] != DISC_VECTOR && data@[0] != DISC_PACKED ==> (r matches Ok(
            FramePayload::Legacy { discriminator, bytes },
        ) && discriminator == data@[0] && bytes@ == data@),
{
    if data.len() == 0 {
        return Err(crate::text::owned("Empty TCP frame payload"));
    }
    let d = data[0];
    if d == DISC_VECTOR {
        let mut v: Vec<i8> = Vec::new();
        let mut i: usize = 1;
        while i < data.len()
            invariant
                1 <= i <= data@.len(),
                v@ == as_i8s(data@.subrange(1, i as int)),
            decreases data.len() - i,
        {
            v.push(data[i] as i8);
            i += 1;
            assert(v@ =~= as_i8s(data@.subrange(1, i as int)));
        }
        Ok(FramePayload::Vector(v))
    } else if d == DISC_PACKED {
        Ok(FramePayload::Packed(copy_bytes(data, 1)))
    } else {
        Ok(FramePayload::Legacy { discriminator: d, bytes: copy_bytes(data, 0) })
    }
}

/// A copy of `data[from..]`.
pub fn copy_bytes(data: &[u8], from: usize) -> (r: Vec<u8>)
    requires
        from <= data@.len(),
    ensures
        r@ == data@.subrange(from as int, data@.len() as int),
{
    let mut v: Vec<u8> = Vec::new();
    let mut i = from;
    while i < data.len()
        invariant
            from <= i <= data@.len(),
            v@ == data@.subrange(from as int, i as int),
        decreases data.len() - i,
    {
        v.push(data[i]);
        i += 1;
        assert(v@ =~= data@.subrange(from as int, i as int));
    }
    v
}

/// The message when a frame has an unknown discriminator and does not read
/// as a legacy frame.
pub fn unknown_discriminator_message(d: u8) -> (r: String)
    ensures
        r@ == "Unknown TCP frame discriminator: "@ + nat_text_of(d),
{
    let mut m = crate::text::owned("Unknown TCP frame discriminator: ");
    m.append(crate::parser::nat_text_exec(d as u64).as_str());
    m
}

/// The decimal digits of a byte.
pub open spec fn nat_text_of(d: u8) -> Seq<char> {
    crate::parser::nat_text(d as nat)
}

/// A current frame holding a vector.
pub open spec fn vector_frame(v: Seq<i8>) -> Seq<u8> {
    seq![PROTOCOL_VERSION] + be32(((1 + v.len()) % 0x1_0000_0000) as u32) + seq![DISC_VECTOR] + as_u8s(v)
}

/// A current frame holding MessagePack bytes.
pub open spec fn packed_frame(b: Seq<u8>) -> Seq<u8> {
    seq![PROTOCOL_VERSION] + be32(((1 + b.len()) % 0x1_0000_0000) as u32) + seq![DISC_PACKED] + b
}

fn push_all(dst: &mut Vec<u8>, src: &[u8])
    ensures
        final(dst)@ == old(dst)@ + src@,
{
    let mut i: usize = 0;
    let ghost start = dst@;
    while i < src.len()
        invariant
            i <= src@.len(),
            dst@ == start + src@.subrange(0, i as int),
        decreases src.len() - i,
    {
        dst.push(src[i]);
        i += 1;
        assert(dst@ =~= start + src@.subrange(0, i as int));
    }
    assert(src@.subrange(0, src@.len() as int) =~= src@);
}

fn length_field(n: usize) -> (r: u32)
    ensures
        r as int == (1 + n) % 0x1_0000_0000,
{
    ((n as u128 + 1) % 0x1_0000_0000) as u32
}

/// Appends a vector frame (its length is written cut to 32 bits).
pub fn encode_vector(v: &[i8], dst: &mut Vec<u8>)
    ensures
        final(dst)@ == old(dst)@ + vector_frame(v@),
{
    let ghost start = dst@;
    dst.push(PROTOCOL_VERSION);
    let lb = be32_bytes(length_field(v.len()));
    push_all(dst, &lb);
    dst.push(DISC_VECTOR);
    let ghost mid = dst@;
    let mut i: usize = 0;
    while i < v.len()
        invariant
            i <= v@.len(),
            dst@ == mid + as_u8s(v@.subrange(0, i as int)),
        decreases v.len() - i,
    {
        dst.push(v[i] as u8);
        i += 1;
        assert(dst@ =~= mid + as_u8s(v@.subrange(0, i as int)));
    }
    assert(v@.subrange(0, v@.len() as int) =~= v@);
    assert(dst@ =~= start + vector_frame(v@));
}

/// Appends a MessagePack frame around already-serialized bytes.
pub fn encode_packed(serialized: &[u8], dst: &mut Vec<u8>)
    ensures
        final(dst)@ == old(dst)@ + packed_frame(serialized@),
{
    let ghost start = dst@;
    dst.push(PROTOCOL_VERSION);
    let lb = be32_bytes(length_field(serialized.len()));
    push_all(dst, &lb);
    dst.push(DISC_PACKED);
    push_all(dst, serialized);
    assert(dst@ =~= start + packed_frame(serialized@));
}

proof fn lemma_i8_u8(x: i8)
    ensures
        (x as u8) as i8 == x,
{
    assert((x as u8) as i8 == x) by (bit_vector);
}

/// A vector frame splits as one complete frame whose content decodes to
/// the same vector, when its length fits the length field.
pub proof fn lemma_vector_frame_roundtrip(v: Seq<i8>, rest: Seq<u8>)
    requires
        1 + v.len() < 0x1_0000_0000,
    ensures
        spec_split(vector_frame(v) + rest) == SplitV::Ready(5, 1 + v.len() as int),
        (vector_frame(v) + rest).subrange(5, 6 + v.len() as int)[0] == DISC_VECTOR,
        as_i8s((vector_frame(v) + rest).subrange(6, 6 + v.len() as int)) == v,
{
    let n = (1 + v.len()) as u32;
    lemma_be32_roundtrip(n);
    let f = vector_frame(v) + rest;
    assert(((1 + v.len()) % 0x1_0000_0000) as u32 == n);
    assert(f.subrange(1, 5) =~= be32(n));
    assert(read_be32(f, 1) == read_be32(be32(n), 0));
    assert(as_i8s(f.subrange(6, 6 + v.len() as int)) =~= v) by {
        assert forall|i: int| 0 <= i < v.len() implies #[trigger] as_i8s(f.subrange(6, 6 + v.len() as int))[i]
            == v[i] by {
            assert(f[6 + i] == v[i] as u8);
            lemma_i8_u8(v[i]);
        }
    }
}

/// A MessagePack frame splits as one complete frame whose content carries
/// the same bytes, when its length fits the length field.
pub proof fn lemma_packed_frame_roundtrip(b: Seq<u8>, rest: Seq<u8>)
    requires
        1 + b.len() < 0x1_0000_0000,
    ensures
        spec_split(packed_frame(b) + rest) == SplitV::Ready(5, 1 + b.len() as int),
        (packed_frame(b) + rest)[5] == DISC_PACKED,
        (packed_frame(b) + rest).subrange(6, 6 + b.len() as int) == b,
{
    let n = (1 + b.len()) as u32;
    lemma_be32_roundtrip(n);
    let f = packed_frame(b) + rest;
    assert(((1 + b.len()) % 0x1_0000_0000) as u32 == n);
    assert(f.subrange(1, 5) =~= be32(n));
    assert(read_be32(f, 1) == read_be32(be32(n), 0));
    assert(f.subrange(6, 6 + b.len() as int) =~= b);
}

} // verus!
