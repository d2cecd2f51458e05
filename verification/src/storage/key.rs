//! Fixed-capacity stream keys: at most 32 bytes of UTF-8, stored inline.
use crate::error::LivenError;
use core::cmp::Ordering;
use crate::executor::bytes_lt;
use vstd::prelude::*;
use vstd::std_specs::cmp::PartialOrdSpec;
use vstd::slice::slice_subrange;
use vstd::string::StringSliceAdditionalSpecFns;
use vstd::utf8::{is_char_boundary, valid_utf8};

verus! {

broadcast use vstd::string::group_string_axioms;

/// Largest number of bytes a stream key may hold.
pub const MAX_KEY_BYTES: usize = 32;

/// A stream key: up to 32 bytes stored inline, zero-padded after `len`.
#[derive(Clone, Copy, PartialEq, Eq, Ord, Hash)]
pub struct StreamKey {
    bytes: [u8; 32],
    len: u8,
}

impl View for StreamKey {
    type V = Seq<u8>;

    /// The key's bytes: the first `len` bytes of the buffer.
    closed spec fn view(&self) -> Seq<u8> {
        if self.len <= 32 {
            self.bytes@.take(self.len as int)
        } else {
            self.bytes@
        }
    }
}

impl Default for StreamKey {
    /// The empty key.
    fn default() -> (k: StreamKey)
        ensures
            k@ == Seq::<u8>::empty(),
            k.wf(),
    {
        let k = StreamKey { bytes: [0u8; 32], len: 0 };
        assert(k@ =~= Seq::<u8>::empty());
        k
    }
}

impl StreamKey {
    /// Whether this key comes before `other` in key order: the zero-padded
    /// buffers compare bytewise, and equal buffers by their lengths.
    pub closed spec fn key_before(&self, other: &StreamKey) -> bool {
        bytes_lt(self.bytes@, other.bytes@) || (!bytes_lt(other.bytes@, self.bytes@) && self.len < other.len)
    }

    /// For well-formed keys, key order is the bytewise order of their texts.
    proof fn lemma_key_before_is_text_order(&self, other: &StreamKey)
        requires
            self.wf(),
            other.wf(),
        ensures
            self.key_before(other) == bytes_lt(self@, other@),
    {
        lemma_padded_order(self.bytes@, other.bytes@, self.len as int, other.len as int);
    }

    /// Keys compare as their texts do, byte by byte, a proper prefix first;
    /// two well-formed keys compare equal exactly when they hold the same
    /// bytes.
    pub proof fn lemma_key_order_is_text_order(&self, other: &StreamKey)
        requires
            self.wf(),
            other.wf(),
        ensures
            (PartialOrdSpec::partial_cmp_spec(self, other) == Some(Ordering::Less)) == bytes_lt(self@, other@),
            (PartialOrdSpec::partial_cmp_spec(self, other) == Some(Ordering::Greater)) == bytes_lt(other@, self@),
            (PartialOrdSpec::partial_cmp_spec(self, other) == Some(Ordering::Equal)) == (self@ == other@),
    {
        self.lemma_key_before_is_text_order(other);
        other.lemma_key_before_is_text_order(self);
        crate::group::lemma_bytes_lt_irrefl(self@);
        if bytes_lt(self@, other@) && bytes_lt(other@, self@) {
            crate::group::lemma_bytes_lt_trans(self@, other@, self@);
        }
        if self@ != other@ {
            crate::group::lemma_bytes_lt_total(self@, other@);
        }
    }
}

/// Nothing comes before a run of zero bytes of the same length.
proof fn lemma_nothing_below_zeros(y: Seq<u8>, z: Seq<u8>)
    requires
        y.len() == z.len(),
        forall|i: int| 0 <= i < z.len() ==> #[trigger] z[i] == 0u8,
    ensures
        !bytes_lt(y, z),
    decreases y.len(),
{
    if y.len() > 0 && y[0] == z[0] {
        lemma_nothing_below_zeros(y.drop_first(), z.drop_first());
    }
}

/// Zero-padded buffers of one length compare bytewise, then by the lengths
/// of their contents, as the contents themselves compare.
proof fn lemma_padded_order(x: Seq<u8>, y: Seq<u8>, lx: int, ly: int)
    requires
        x.len() == y.len(),
        0 <= lx <= x.len(),
        0 <= ly <= y.len(),
        forall|i: int| lx <= i < x.len() ==> #[trigger] x[i] == 0u8,
        forall|i: int| ly <= i < y.len() ==> #[trigger] y[i] == 0u8,
    ensures
        (bytes_lt(x, y) || (!bytes_lt(y, x) && lx < ly)) == bytes_lt(x.take(lx), y.take(ly)),
    decreases x.len(),
{
    if lx == 0 && ly == 0 {
        assert(x =~= y);
        crate::group::lemma_bytes_lt_irrefl(x);
    } else if lx == 0 {
        lemma_nothing_below_zeros(y, x);
    } else if ly == 0 {
        lemma_nothing_below_zeros(x, y);
    } else if x[0] == y[0] {
        lemma_padded_order(x.drop_first(), y.drop_first(), lx - 1, ly - 1);
        assert(x.take(lx).drop_first() =~= x.drop_first().take(lx - 1));
        assert(y.take(ly).drop_first() =~= y.drop_first().take(ly - 1));
    }
}

impl PartialOrd for StreamKey {
    fn partial_cmp(&self, other: &StreamKey) -> (r: Option<Ordering>) {
        let a = self.bytes.as_slice();
        let b = other.bytes.as_slice();
        if crate::executor::bytes_lt_exec(a, b) {
            Some(Ordering::Less)
        } else if crate::executor::bytes_lt_exec(b, a) {
            Some(Ordering::Greater)
        } else if self.len < other.len {
            Some(Ordering::Less)
        } else if other.len < self.len {
            Some(Ordering::Greater)
        } else {
            Some(Ordering::Equal)
        }
    }
}

impl vstd::std_specs::cmp::PartialOrdSpecImpl for StreamKey {
    open spec fn obeys_partial_cmp_spec() -> bool {
        true
    }

    open spec fn partial_cmp_spec(&self, other: &StreamKey) -> Option<Ordering> {
        if self.key_before(other) {
            Some(Ordering::Less)
        } else if other.key_before(self) {
            Some(Ordering::Greater)
        } else {
            Some(Ordering::Equal)
        }
    }
}

/// Decodes a byte slice as UTF-8 (std `str::from_utf8`).
///
/// On failure it gives the error's `Display` text, which names where the
/// first invalid sequence starts; the text depends on the bytes alone and is
/// left to std.
#[verifier::external_body]
pub(crate) fn str_from_utf8(v: &[u8]) -> (r: Result<&str, String>)
    ensures
        r is Ok <==> valid_utf8(v@),
        r matches Ok(s) ==> s.spec_bytes() == v@,
        r matches Err(m) ==> m@ == utf8_error_text(v@),
{
    match std::str::from_utf8(v) {
        Ok(s) => Ok(s),
        Err(e) => Err(e.to_string()),
    }
}

/// The `Display` text of the error that `str::from_utf8` gives for bytes
/// that are not UTF-8.
pub uninterp spec fn utf8_error_text(v: Seq<u8>) -> Seq<char>;

impl StreamKey {
    /// Length, padding and content rules that every constructor establishes.
    pub closed spec fn wf(&self) -> bool {
        &&& self.len <= 32
        &&& forall|i: int| self.len <= i < 32 ==> #[trigger] self.bytes@[i] == 0u8
        &&& valid_utf8(self@)
    }

    /// A key holds at most 32 bytes.
    pub proof fn lemma_key_len(&self)
        ensures
            self@.len() <= 32,
    {
    }

    /// A well-formed key (as every constructor makes) holds at most 32 bytes
    /// of UTF-8, so `as_str` gives exactly its bytes and never falls back
    /// to the empty text.
    pub proof fn lemma_wf_key_is_text(&self)
        requires
            self.wf(),
        ensures
            self@.len() <= 32,
            valid_utf8(self@),
    {
    }

    /// A key holding exactly the given bytes, which must fit.
    fn from_bytes_prefix(b: &[u8], n: usize) -> (k: StreamKey)
        requires
            n <= 32,
            n <= b@.len(),
        ensures
            k@ == b@.take(n as int),
            k.len == n,
            forall|i: int| n <= i < 32 ==> #[trigger] k.bytes@[i] == 0u8,
    {
        let mut arr = [0u8; 32];
        let mut i: usize = 0;
        while i < n
            invariant
                i <= n <= 32,
                n <= b@.len(),
                forall|j: int| 0 <= j < i ==> #[trigger] arr@[j] == b@[j],
                forall|j: int| i <= j < 32 ==> #[trigger] arr@[j] == 0u8,
            decreases n - i,
        {
            arr[i] = b[i];
            i += 1;
        }
        let k = StreamKey { bytes: arr, len: n as u8 };
        assert(k@ =~= b@.take(n as int));
        k
    }

    /// Builds a key from a string, refusing strings longer than 32 bytes.
    pub fn from_str(s: &str) -> (r: Result<StreamKey, LivenError>)
        ensures
            s.spec_bytes().len() <= 32 ==> (r matches Ok(k) && k@ == s.spec_bytes() && k.wf()),
            s.spec_bytes().len() > 32 ==> (r matches Err(LivenError::KeyTooLong { len, key }) && len
                == s.spec_bytes().len() && key@ == s@),
    {
        let bytes = s.as_bytes();
        if bytes.len() > 32 {
            return Err(LivenError::KeyTooLong { len: bytes.len(), key: s.to_owned() });
        }
        let k = Self::from_bytes_prefix(bytes, bytes.len());
        proof {
            assert(bytes@.take(bytes@.len() as int) =~= bytes@);
            vstd::utf8::encode_utf8_valid_utf8(s@);
        }
        Ok(k)
    }

    /// Same as [`StreamKey::from_str`].
    pub fn try_new(s: &str) -> (r: Result<StreamKey, LivenError>)
        ensures
            s.spec_bytes().len() <= 32 ==> (r matches Ok(k) && k@ == s.spec_bytes() && k.wf()),
            s.spec_bytes().len() > 32 ==> (r matches Err(LivenError::KeyTooLong { len, key }) && len
                == s.spec_bytes().len() && key@ == s@),
    {
        Self::from_str(s)
    }

    /// Builds a key from a string, cutting it to the longest prefix of at most
    /// 32 bytes that ends on a character boundary.
    pub fn from_str_truncated(s: &str) -> (k: StreamKey)
        ensures
            k.wf(),
            k@ == s.spec_bytes().take(k@.len() as int),
            s.spec_bytes().len() <= 32 ==> k@ == s.spec_bytes(),
            s.spec_bytes().len() > 32 ==> {
                &&& k@.len() <= 32
                &&& is_char_boundary(s.spec_bytes(), k@.len() as int)
                &&& forall|m: int|
                    k@.len() < m <= 32 ==> !is_char_boundary(s.spec_bytes(), m)
            },
    {
        let bytes = s.as_bytes();
        proof {
            vstd::utf8::encode_utf8_valid_utf8(s@);
        }
        let mut n = bytes.len();
        if n > 32 {
            n = 32;
            while n > 0 && !s.is_char_boundary(n)
                invariant
                    n <= 32 < bytes@.len(),
                    bytes@ == s.spec_bytes(),
                    forall|m: int| n < m <= 32 ==> !is_char_boundary(s.spec_bytes(), m),
                decreases n,
            {
                n -= 1;
            }
            proof {
                vstd::utf8::is_char_boundary_start_end_of_seq(s.spec_bytes());
            }
        }
        let k = Self::from_bytes_prefix(bytes, n);
        proof {
            if n == bytes@.len() {
                assert(bytes@.take(n as int) =~= bytes@);
            } else {
                vstd::utf8::valid_utf8_split(bytes@, n as int);
                assert(bytes@.subrange(0, n as int) =~= bytes@.take(n as int));
            }
        }
        k
    }

    /// The key as a string slice; empty when the bytes are not UTF-8.
    pub fn as_str(&self) -> (r: &str)
        ensures
            valid_utf8(self@) ==> r.spec_bytes() == self@,
            !valid_utf8(self@) ==> r@.len() == 0,
    {
        match str_from_utf8(self.as_bytes()) {
            Ok(x) => x,
            Err(_) => {
                proof {
                    reveal_strlit("");
                }
                ""
            },
        }
    }

    /// The key's bytes.
    pub fn as_bytes(&self) -> (r: &[u8])
        ensures
            r@ == self@,
    {
        let n = if self.len <= 32 { self.len as usize } else { 32 };
        let r = slice_subrange(self.bytes.as_slice(), 0, n);
        assert(r@ =~= self@);
        r
    }

    /// The key as an owned string; empty when the bytes are not UTF-8.
    pub fn to_string(&self) -> (r: String)
        ensures
            valid_utf8(self@) ==> r@ == vstd::utf8::decode_utf8(self@),
            !valid_utf8(self@) ==> r@.len() == 0,
    {
        let s = self.as_str();
        proof {
            if valid_utf8(self@) {
                vstd::utf8::encode_utf8_decode_utf8(s@);
            }
        }
        s.to_owned()
    }
}


// ------------------------------------------------------ k-sortable keys

/// The lowercase hexadecimal digit (as a byte) of a value below 16.
pub open spec fn hex_byte(d: int) -> u8 {
    if d < 10 {
        (48 + d) as u8
    } else {
        (87 + d) as u8
    }
}

/// The last `k` hexadecimal digits of `n`, most significant first, zero-padded.
pub open spec fn hex_fixed(n: nat, k: nat) -> Seq<u8>
    decreases k,
{
    if k == 0 {
        Seq::empty()
    } else {
        hex_fixed(n / 16, (k - 1) as nat).push(hex_byte((n % 16) as int))
    }
}

/// 16 to the power `k`.
pub open spec fn pow16(k: nat) -> nat
    decreases k,
{
    if k == 0 {
        1
    } else {
        16 * pow16((k - 1) as nat)
    }
}

/// The bytes of a k-sortable key: 16 hex digits of the time in microseconds,
/// then 16 hex digits of random entropy.
pub open spec fn k_sortable_bytes(micros: u64, entropy: u64) -> Seq<u8> {
    hex_fixed(micros as nat, 16) + hex_fixed(entropy as nat, 16)
}

proof fn lemma_hex_fixed_shape(n: nat, k: nat)
    ensures
        hex_fixed(n, k).len() == k,
        forall|i: int| 0 <= i < k ==> 48 <= #[trigger] hex_fixed(n, k)[i] < 128,
    decreases k,
{
    if k > 0 {
        lemma_hex_fixed_shape(n / 16, (k - 1) as nat);
    }
}

proof fn lemma_lt_same_prefix(p: Seq<u8>, x: u8, y: u8)
    requires
        x < y,
    ensures
        crate::executor::bytes_lt(p.push(x), p.push(y)),
    decreases p.len(),
{
    if p.len() > 0 {
        lemma_lt_same_prefix(p.drop_first(), x, y);
        assert(p.push(x).drop_first() =~= p.drop_first().push(x));
        assert(p.push(y).drop_first() =~= p.drop_first().push(y));
    }
}

proof fn lemma_lt_extend(a1: Seq<u8>, a2: Seq<u8>, b1: Seq<u8>, b2: Seq<u8>)
    requires
        a1.len() == a2.len(),
        crate::executor::bytes_lt(a1, a2),
    ensures
        crate::executor::bytes_lt(a1 + b1, a2 + b2),
    decreases a1.len(),
{
    if a1.len() > 0 && a1[0] == a2[0] {
        lemma_lt_extend(a1.drop_first(), a2.drop_first(), b1, b2);
        assert((a1 + b1).drop_first() =~= a1.drop_first() + b1);
        assert((a2 + b2).drop_first() =~= a2.drop_first() + b2);
    }
}

proof fn lemma_hex_byte_mono(x: int, y: int)
    requires
        0 <= x < y < 16,
    ensures
        hex_byte(x) < hex_byte(y),
{
}

/// Fixed-width hexadecimal digits order numbers as the numbers are ordered.
proof fn lemma_hex_order(a: nat, b: nat, k: nat)
    requires
        a < b < pow16(k),
    ensures
        crate::executor::bytes_lt(hex_fixed(a, k), hex_fixed(b, k)),
    decreases k,
{
    if k == 0 {
        assert(false);
    } else {
        let k1 = (k - 1) as nat;
        assert(a / 16 <= b / 16) by (nonlinear_arith)
            requires
                a < b,
        ;
        assert(b / 16 < pow16(k1)) by (nonlinear_arith)
            requires
                b < 16 * pow16(k1),
        ;
        lemma_hex_fixed_shape(a / 16, k1);
        lemma_hex_fixed_shape(b / 16, k1);
        if a / 16 < b / 16 {
            lemma_hex_order(a / 16, b / 16, k1);
            lemma_lt_extend(
                hex_fixed(a / 16, k1),
                hex_fixed(b / 16, k1),
                seq![hex_byte((a % 16) as int)],
                seq![hex_byte((b % 16) as int)],
            );
            assert(hex_fixed(a / 16, k1) + seq![hex_byte((a % 16) as int)] =~= hex_fixed(a, k));
            assert(hex_fixed(b / 16, k1) + seq![hex_byte((b % 16) as int)] =~= hex_fixed(b, k));
        } else {
            assert(a % 16 < b % 16) by (nonlinear_arith)
                requires
                    a < b,
                    a / 16 == b / 16,
            ;
            lemma_hex_byte_mono((a % 16) as int, (b % 16) as int);
            lemma_lt_same_prefix(hex_fixed(a / 16, k1), hex_byte((a % 16) as int), hex_byte((b % 16) as int));
        }
    }
}

proof fn lemma_pow16_16()
    ensures
        pow16(16) == 0x1_0000_0000_0000_0000,
{
    reveal_with_fuel(pow16, 17);
}

/// K-sortability: a key made at an earlier microsecond sorts before a key
/// made at a later one, whatever the entropy.
pub proof fn lemma_k_sortable(t1: u64, e1: u64, t2: u64, e2: u64)
    requires
        t1 < t2,
    ensures
        crate::executor::bytes_lt(k_sortable_bytes(t1, e1), k_sortable_bytes(t2, e2)),
{
    lemma_pow16_16();
    lemma_hex_order(t1 as nat, t2 as nat, 16);
    lemma_hex_fixed_shape(t1 as nat, 16);
    lemma_hex_fixed_shape(t2 as nat, 16);
    lemma_lt_extend(hex_fixed(t1 as nat, 16), hex_fixed(t2 as nat, 16), hex_fixed(e1 as nat, 16), hex_fixed(e2 as nat, 16));
}

fn push_hex_fixed(out: &mut Vec<u8>, n: u64, k: usize)
    ensures
        final(out)@ == old(out)@ + hex_fixed(n as nat, k as nat),
    decreases k,
{
    if k > 0 {
        push_hex_fixed(out, n / 16, k - 1);
        let d = n % 16;
        let b: u8 = if d < 10 {
            (48 + d) as u8
        } else {
            (87 + d) as u8
        };
        out.push(b);
        assert(final(out)@ =~= old(out)@ + hex_fixed(n as nat, k as nat));
    }
}

/// The current time in microseconds since the Unix epoch (std
/// `SystemTime::now`); nothing is promised of its value.
#[verifier::external_body]
fn now_micros() -> (r: u64) {
    std::time::SystemTime::now().duration_since(std::time::UNIX_EPOCH).unwrap_or_default().as_micros() as u64
}

/// Eight random bytes from the thread's generator (`rand::thread_rng`), read
/// big-endian; nothing is promised of their value.
#[verifier::external_body]
fn random_u64() -> (r: u64) {
    let mut b = [0u8; 8];
    rand::RngCore::fill_bytes(&mut rand::thread_rng(), &mut b);
    u64::from_be_bytes(b)
}

proof fn lemma_ascii_valid(b: Seq<u8>)
    requires
        forall|i: int| 0 <= i < b.len() ==> #[trigger] b[i] < 128,
    ensures
        valid_utf8(b),
{
    let cs = Seq::new(b.len(), |i: int| b[i] as char);
    assert(vstd::utf8::is_ascii_chars(cs)) by {
        assert forall|i: int| 0 <= i < cs.len() implies '\0' <= #[trigger] cs[i] <= '\u{7f}' by {
            assert(b[i] < 128);
        }
    }
    vstd::utf8::is_ascii_chars_encode_utf8(cs);
    vstd::utf8::encode_utf8_valid_utf8(cs);
    assert(vstd::utf8::encode_utf8(cs) =~= b);
}

impl StreamKey {
    /// The k-sortable key for a time in microseconds and 64 bits of entropy.
    pub fn k_sortable_from(micros: u64, entropy: u64) -> (k: StreamKey)
        ensures
            k.wf(),
            k@ == k_sortable_bytes(micros, entropy),
    {
        let mut v: Vec<u8> = Vec::new();
        push_hex_fixed(&mut v, micros, 16);
        push_hex_fixed(&mut v, entropy, 16);
        proof {
            lemma_hex_fixed_shape(micros as nat, 16);
            lemma_hex_fixed_shape(entropy as nat, 16);
            assert(v@ =~= k_sortable_bytes(micros, entropy));
            lemma_ascii_valid(v@);
        }
        let k = Self::from_bytes_prefix(v.as_slice(), 32);
        assert(v@.take(32) =~= v@);
        k
    }

    /// A fresh key that sorts by creation time: the current time in
    /// microseconds and random entropy, as 32 hexadecimal digits.
    pub fn generate_k_sortable() -> (k: StreamKey)
        ensures
            k.wf(),
            exists|t: u64, e: u64| k@ == k_sortable_bytes(t, e),
    {
        let t = now_micros();
        let e = random_u64();
        Self::k_sortable_from(t, e)
    }
}

} // verus!
