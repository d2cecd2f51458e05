//! Capability bits, role mapping and hexadecimal encoding.
use crate::text::{str_trim, trim};
use vstd::prelude::*;
use vstd::string::StringSliceAdditionalSpecFns;
use vstd::utf8::{encode_utf8, is_char_boundary};

verus! {

pub const CAP_NONE: u8 = 0x00;
/// Historical scans, subscriptions, stream listings.
pub const CAP_READ: u8 = 0x01;
/// Inserts, updates, upserts.
pub const CAP_WRITE: u8 = 0x02;
/// Stream drops and compaction.
pub const CAP_ADMIN: u8 = 0x04;
/// Unrestricted.
pub const CAP_ROOT: u8 = 0xFF;
/// Inserts, upserts and updates (the write bit).
pub const CAP_INSERT: u8 = 0x02;
/// Deletes, emptying and trash/delete pipelines.
pub const CAP_DELETE: u8 = 0x04;

/// Fills a buffer with bytes from the operating system's random source
/// (`rand::rngs::OsRng`). Nothing is promised of the bytes.
#[verifier::external_body]
fn os_random_fill(buf: &mut [u8; 32]) {
    rand::RngCore::fill_bytes(&mut rand::rngs::OsRng, buf);
}

/// A fresh 32-byte nonce from the operating system's random source.
pub fn generate_nonce() -> (n: [u8; 32]) {
    let mut nonce = [0u8; 32];
    os_random_fill(&mut nonce);
    nonce
}

/// The capability bits granted to a role name.
pub open spec fn spec_role_capabilities(role: Seq<char>) -> u8 {
    if role == "admin"@ {
        CAP_ROOT
    } else if role == "write-delete"@ {
        CAP_READ | CAP_INSERT | CAP_DELETE
    } else if role == "write"@ {
        CAP_READ | CAP_INSERT
    } else if role == "read-only"@ {
        CAP_READ
    } else {
        CAP_NONE
    }
}

/// Map a role string to its capability bitmask.
pub fn capabilities_for_role(role: &str) -> (c: u8)
    ensures
        c == spec_role_capabilities(role@),
{
    let s = crate::text::chars_of(role);
    if crate::text::chars_eq_str(&s, "admin") {
        CAP_ROOT
    } else if crate::text::chars_eq_str(&s, "write-delete") {
        CAP_READ | CAP_INSERT | CAP_DELETE
    } else if crate::text::chars_eq_str(&s, "write") {
        CAP_READ | CAP_INSERT
    } else if crate::text::chars_eq_str(&s, "read-only") {
        CAP_READ
    } else {
        CAP_NONE
    }
}

/// The lowercase hexadecimal digit of a value below 16.
pub open spec fn hex_digit(v: int) -> char {
    if v < 10 {
        (('0' as int) + v) as char
    } else {
        (('a' as int) + v - 10) as char
    }
}

/// Two lowercase hexadecimal digits per byte, most significant first.
pub open spec fn spec_hex_encode(bytes: Seq<u8>) -> Seq<char>
    decreases bytes.len(),
{
    if bytes.len() == 0 {
        Seq::empty()
    } else {
        seq![hex_digit((bytes[0] / 16) as int), hex_digit((bytes[0] % 16) as int)] + spec_hex_encode(
            bytes.drop_first(),
        )
    }
}

proof fn lemma_hex_encode_push(bytes: Seq<u8>, b: u8)
    ensures
        spec_hex_encode(bytes.push(b)) == spec_hex_encode(bytes) + seq![
            hex_digit((b / 16) as int),
            hex_digit((b % 16) as int),
        ],
    decreases bytes.len(),
{
    if bytes.len() == 0 {
        assert(bytes.push(b).drop_first() =~= Seq::<u8>::empty());
        assert(spec_hex_encode(Seq::<u8>::empty()) =~= Seq::<char>::empty());
    } else {
        assert(bytes.push(b).drop_first() =~= bytes.drop_first().push(b));
        lemma_hex_encode_push(bytes.drop_first(), b);
    }
}

fn hex_digit_exec(v: u8) -> (c: char)
    requires
        v < 16,
    ensures
        c == hex_digit(v as int),
{
    if v < 10 {
        ((48u8 + v) as char)
    } else {
        ((87u8 + v) as char)
    }
}

/// Lowercase hexadecimal text of the bytes.
pub fn hex_encode(bytes: &[u8]) -> (s: String)
    ensures
        s@ == spec_hex_encode(bytes@),
{
    let mut s = String::new();
    let mut i: usize = 0;
    while i < bytes.len()
        invariant
            i <= bytes.len(),
            s@ == spec_hex_encode(bytes@.take(i as int)),
        decreases bytes.len() - i,
    {
        let b = bytes[i];
        crate::text::string_push(&mut s, hex_digit_exec(b / 16));
        crate::text::string_push(&mut s, hex_digit_exec(b % 16));
        proof {
            lemma_hex_encode_push(bytes@.take(i as int), b);
            assert(bytes@.take(i as int).push(b) =~= bytes@.take(i + 1));
        }
        i += 1;
    }
    assert(bytes@.take(bytes.len() as int) =~= bytes@);
    s
}


/// The value of an ASCII hexadecimal digit (either case).
pub open spec fn hex_value(b: u8) -> Option<u8> {
    if 48 <= b <= 57 {
        Some((b - 48) as u8)
    } else if 97 <= b <= 102 {
        Some((b - 87) as u8)
    } else if 65 <= b <= 70 {
        Some((b - 55) as u8)
    } else {
        None
    }
}

/// The byte that two text bytes denote in base 16 (std `u8::from_str_radix`
/// on a two-byte string: a leading `+` is a sign).
pub open spec fn hex_pair_value(b0: u8, b1: u8) -> Option<u8> {
    if b0 == 43 {
        hex_value(b1)
    } else {
        match (hex_value(b0), hex_value(b1)) {
            (Some(h), Some(l)) => Some((h * 16 + l) as u8),
            _ => None,
        }
    }
}

/// The bytes that consecutive pairs of text bytes denote, from position `i`,
/// or `None` if a pair is not hexadecimal.
pub open spec fn spec_hex_pairs(t: Seq<u8>, i: int) -> Option<Seq<u8>>
    decreases t.len() - i,
{
    if i < 0 || i + 2 > t.len() {
        Some(Seq::empty())
    } else {
        match (hex_pair_value(t[i], t[i + 1]), spec_hex_pairs(t, i + 2)) {
            (Some(b), Some(rest)) => Some(seq![b] + rest),
            _ => None,
        }
    }
}

/// Whether decoding reaches a pair that ends inside a multi-byte character
/// (where slicing the text at that pair would panic) before any invalid pair.
pub open spec fn hex_scan_panics(t: Seq<u8>, i: int) -> bool
    decreases t.len() - i,
{
    if i < 0 || i + 2 > t.len() {
        false
    } else if !is_char_boundary(t, i + 2) {
        true
    } else if hex_pair_value(t[i], t[i + 1]) is None {
        false
    } else {
        hex_scan_panics(t, i + 2)
    }
}

/// The bytes of the trimmed text that `hex_decode` reads.
pub open spec fn hex_input(s: Seq<char>) -> Seq<u8> {
    encode_utf8(trim(s))
}

fn hex_value_exec(b: u8) -> (r: Option<u8>)
    ensures
        r == hex_value(b),
{
    if 48 <= b && b <= 57 {
        Some(b - 48)
    } else if 97 <= b && b <= 102 {
        Some(b - 87)
    } else if 65 <= b && b <= 70 {
        Some(b - 55)
    } else {
        None
    }
}

fn hex_pair_value_exec(b0: u8, b1: u8) -> (r: Option<u8>)
    ensures
        r == hex_pair_value(b0, b1),
{
    if b0 == 43 {
        hex_value_exec(b1)
    } else {
        match (hex_value_exec(b0), hex_value_exec(b1)) {
            (Some(h), Some(l)) => Some(h * 16 + l),
            _ => None,
        }
    }
}

/// Decodes hexadecimal text (surrounding whitespace ignored) into bytes.
pub fn hex_decode(s: &str) -> (r: Result<Vec<u8>, String>)
    requires
        !hex_scan_panics(hex_input(s@), 0),
    ensures
        hex_input(s@).len() % 2 != 0 ==> (r matches Err(m) && m@ == "Odd hex length"@),
        hex_input(s@).len() % 2 == 0 ==> match spec_hex_pairs(hex_input(s@), 0) {
            Some(v) => (r matches Ok(out) && out@ == v),
            None => (r matches Err(m) && m@ == "Invalid hex character"@),
        },
{
    let t = str_trim(s);
    let bytes = t.as_bytes();
    if bytes.len() % 2 != 0 {
        return Err(crate::text::owned("Odd hex length"));
    }
    let mut out: Vec<u8> = Vec::with_capacity(bytes.len() / 2);
    let mut i: usize = 0;
    while i < bytes.len()
        invariant
            bytes@ == hex_input(s@),
            bytes@.len() % 2 == 0,
            i % 2 == 0,
            i <= bytes@.len(),
            spec_hex_pairs(bytes@, 0) == match spec_hex_pairs(bytes@, i as int) {
                Some(rest) => Some(out@ + rest),
                None => None::<Seq<u8>>,
            },
        decreases bytes.len() - i,
    {
        match hex_pair_value_exec(bytes[i], bytes[i + 1]) {
            Some(b) => {
                let ghost old_out = out@;
                out.push(b);
                proof {
                    match spec_hex_pairs(bytes@, i + 2) {
                        Some(rest) => {
                            assert(out@ + rest =~= old_out + (seq![b] + rest));
                        },
                        None => {},
                    }
                }
                i += 2;
            },
            None => {
                return Err(crate::text::owned("Invalid hex character"));
            },
        }
    }
    assert(out@ + Seq::<u8>::empty() =~= out@);
    Ok(out)
}


proof fn lemma_hex_encode_shape(bytes: Seq<u8>)
    ensures
        spec_hex_encode(bytes).len() == 2 * bytes.len(),
        forall|k: int|
            0 <= k < bytes.len() ==> spec_hex_encode(bytes)[2 * k] == hex_digit((bytes[k] / 16) as int)
                && spec_hex_encode(bytes)[2 * k + 1] == hex_digit((bytes[k] % 16) as int),
    decreases bytes.len(),
{
    if bytes.len() > 0 {
        lemma_hex_encode_shape(bytes.drop_first());
        let e = spec_hex_encode(bytes);
        let r = spec_hex_encode(bytes.drop_first());
        assert forall|k: int| 0 <= k < bytes.len() implies e[2 * k] == hex_digit((bytes[k] / 16) as int)
            && e[2 * k + 1] == hex_digit((bytes[k] % 16) as int) by {
            if k > 0 {
                assert(e[2 * k] == r[2 * (k - 1)]);
                assert(e[2 * k + 1] == r[2 * (k - 1) + 1]);
                assert(bytes.drop_first()[k - 1] == bytes[k]);
            }
        }
    }
}

proof fn lemma_hex_digit_ascii(v: int)
    requires
        0 <= v < 16,
    ensures
        '\0' <= hex_digit(v) <= '\u{7f}',
        !crate::text::is_unicode_whitespace(hex_digit(v)),
        hex_digit(v) != '+',
        hex_value(hex_digit(v) as u8) == Some(v as u8),
{
}

proof fn lemma_trim_hex(bytes: Seq<u8>)
    ensures
        trim(spec_hex_encode(bytes)) == spec_hex_encode(bytes),
{
    let e = spec_hex_encode(bytes);
    lemma_hex_encode_shape(bytes);
    if bytes.len() > 0 {
        lemma_hex_digit_ascii((bytes[0] / 16) as int);
        assert(e[2 * 0int] == e[0]);
        let last: int = bytes.len() - 1;
        lemma_hex_digit_ascii((bytes[last] % 16) as int);
        assert(e[2 * last + 1] == e.last());
    }
}

proof fn lemma_hex_pairs_from(bytes: Seq<u8>, t: Seq<u8>, k: int)
    requires
        0 <= k <= bytes.len(),
        t.len() == 2 * bytes.len(),
        forall|j: int|
            0 <= j < bytes.len() ==> t[2 * j] == hex_digit((bytes[j] / 16) as int) as u8 && t[2 * j
                + 1] == hex_digit((bytes[j] % 16) as int) as u8,
    ensures
        spec_hex_pairs(t, 2 * k) == Some(bytes.skip(k)),
    decreases bytes.len() - k,
{
    if k == bytes.len() {
        assert(bytes.skip(k) =~= Seq::<u8>::empty());
    } else {
        lemma_hex_pairs_from(bytes, t, k + 1);
        let b = bytes[k];
        lemma_hex_digit_ascii((b / 16) as int);
        lemma_hex_digit_ascii((b % 16) as int);
        assert(hex_pair_value(t[2 * k], t[2 * k + 1]) == Some(b));
        assert(seq![b] + bytes.skip(k + 1) =~= bytes.skip(k));
    }
}

proof fn lemma_hex_no_panic_from(t: Seq<u8>, k: int)
    requires
        0 <= k,
        2 * k <= t.len(),
        t.len() % 2 == 0,
        vstd::utf8::valid_utf8(t),
        forall|i: int| 0 <= i < t.len() ==> t[i] < 128,
    ensures
        !hex_scan_panics(t, 2 * k),
    decreases t.len() - 2 * k,
{
    if 2 * k + 2 <= t.len() {
        if 2 * k + 2 < t.len() {
            vstd::utf8::is_char_boundary_iff_not_is_continuation_byte(t, 2 * k + 2);
        } else {
            vstd::utf8::is_char_boundary_start_end_of_seq(t);
        }
        lemma_hex_no_panic_from(t, k + 1);
    }
}

/// Decoding the hexadecimal text of any bytes gives the same bytes back.
pub proof fn lemma_hex_roundtrip(bytes: Seq<u8>)
    ensures
        hex_input(spec_hex_encode(bytes)).len() % 2 == 0,
        !hex_scan_panics(hex_input(spec_hex_encode(bytes)), 0),
        spec_hex_pairs(hex_input(spec_hex_encode(bytes)), 0) == Some(bytes),
{
    let e = spec_hex_encode(bytes);
    lemma_trim_hex(bytes);
    lemma_hex_encode_shape(bytes);
    assert forall|i: int| 0 <= i < e.len() implies '\0' <= #[trigger] e[i] <= '\u{7f}' by {
        let k = i / 2;
        if i % 2 == 0 {
            assert(i == 2 * k);
            lemma_hex_digit_ascii((bytes[k] / 16) as int);
        } else {
            assert(i == 2 * k + 1);
            lemma_hex_digit_ascii((bytes[k] % 16) as int);
        }
    }
    assert(vstd::utf8::is_ascii_chars(e));
    vstd::utf8::is_ascii_chars_encode_utf8(e);
    let t = hex_input(e);
    assert(t == encode_utf8(e));
    assert forall|j: int| 0 <= j < bytes.len() implies t[2 * j] == hex_digit(
        (bytes[j] / 16) as int,
    ) as u8 && t[2 * j + 1] == hex_digit((bytes[j] % 16) as int) as u8 by {
        assert(e[2 * j] as u8 == t[2 * j]);
        assert(e[2 * j + 1] as u8 == t[2 * j + 1]);
    }
    lemma_hex_pairs_from(bytes, t, 0);
    assert(bytes.skip(0) =~= bytes);
    assert forall|i: int| 0 <= i < t.len() implies t[i] < 128 by {
        assert(e[i] as u8 == t[i]);
        vstd::utf8::is_ascii_chars_nat_bound(e);
    }
    vstd::utf8::encode_utf8_valid_utf8(e);
    lemma_hex_no_panic_from(t, 0);
}


// ------------------------------------------------------------ query access

/// Whether the text ends with `w`.
pub open spec fn ends_with(t: Seq<char>, w: Seq<char>) -> bool {
    t.len() >= w.len() && t.subrange(t.len() - w.len(), t.len() as int) == w
}

/// Whether the trimmed query is `tail("..")` or `tail('..')`.
pub open spec fn is_tail_text(t: Seq<char>) -> bool {
    (crate::parser::has_lit(t, 0, "tail(\""@) && ends_with(t, "\")"@)) || (crate::parser::has_lit(
        t,
        0,
        "tail('"@,
    ) && ends_with(t, "')"@))
}

/// Whether a pipeline has a `delete` or `trash` stage.
pub open spec fn has_delete_stage(stages: Seq<crate::types::StageV>) -> bool {
    exists|i: int| 0 <= i < stages.len() && (#[trigger] stages[i] is Delete || stages[i] is Trash)
}

/// Whether capabilities allow a parsed query: writes need insert rights,
/// removals delete rights, dropping a stream every right, and reads read
/// rights.
pub open spec fn query_allowed(q: crate::types::QueryV, caps: u8) -> bool {
    match q {
        crate::types::QueryV::Insert { .. } | crate::types::QueryV::InsertBatch { .. }
        | crate::types::QueryV::Upsert { .. } | crate::types::QueryV::UpsertBatch { .. }
        | crate::types::QueryV::Update { .. } | crate::types::QueryV::PipelineUpdate { .. } => caps
            & CAP_INSERT != 0,
        crate::types::QueryV::DeleteKey { .. } | crate::types::QueryV::Empty { .. }
        | crate::types::QueryV::PipelineDelete { .. } => caps & CAP_DELETE != 0,
        crate::types::QueryV::Drop { .. } => caps & CAP_ROOT == CAP_ROOT,
        crate::types::QueryV::Pipeline(stages) => if has_delete_stage(stages) {
            caps & CAP_DELETE != 0
        } else {
            caps & CAP_READ != 0
        },
        _ => caps & CAP_READ != 0,
    }
}

/// The access decision for a query text: root may do anything; a `tail`
/// needs read rights; a query that does not parse is let through (the
/// engine refuses it later); else [`query_allowed`].
pub open spec fn spec_check_capabilities(qs: Seq<char>, caps: u8) -> bool {
    if caps == CAP_ROOT {
        true
    } else if is_tail_text(crate::text::trim(qs)) {
        caps & CAP_READ != 0
    } else {
        match crate::query_parser::spec_query(qs) {
            crate::query_parser::QRes::Parsed(q) => query_allowed(q, caps),
            _ => true,
        }
    }
}

proof fn lemma_bits_grow(c1: u8, c2: u8)
    requires
        c1 & !c2 == 0,
    ensures
        c1 & 0x01 != 0 ==> c2 & 0x01 != 0,
        c1 & 0x02 != 0 ==> c2 & 0x02 != 0,
        c1 & 0x04 != 0 ==> c2 & 0x04 != 0,
        c1 & 0xFF == 0xFF ==> c2 == 0xFF,
        c1 == 0xFF ==> c2 == 0xFF,
{
    assert(c1 & !c2 == 0 ==> (c1 & 0x01 != 0 ==> c2 & 0x01 != 0)) by (bit_vector);
    assert(c1 & !c2 == 0 ==> (c1 & 0x02 != 0 ==> c2 & 0x02 != 0)) by (bit_vector);
    assert(c1 & !c2 == 0 ==> (c1 & 0x04 != 0 ==> c2 & 0x04 != 0)) by (bit_vector);
    assert(c1 & !c2 == 0 ==> (c1 & 0xFF == 0xFF ==> c2 == 0xFF)) by (bit_vector);
    assert(c1 & !c2 == 0 ==> (c1 == 0xFF ==> c2 == 0xFF)) by (bit_vector);
}

/// More capability bits never take access away: whatever a set of bits
/// allows, a set holding all of them allows too.
pub proof fn lemma_capabilities_monotone(qs: Seq<char>, c1: u8, c2: u8)
    requires
        c1 & !c2 == 0,
        spec_check_capabilities(qs, c1),
    ensures
        spec_check_capabilities(qs, c2),
{
    lemma_bits_grow(c1, c2);
}

/// Whether reading the query is needed to decide and the engine stops on it.
pub open spec fn check_stops(qs: Seq<char>, caps: u8) -> bool {
    caps != CAP_ROOT && !is_tail_text(crate::text::trim(qs)) && crate::query_parser::spec_query(qs) is Stops
}

fn ends_with_exec(t: &[char], w: &str) -> (r: bool)
    ensures
        r == ends_with(t@, w@),
{
    let wc = crate::text::chars_of(w);
    if t.len() < wc.len() {
        return false;
    }
    crate::text::chars_eq_str(vstd::slice::slice_subrange(t, t.len() - wc.len(), t.len()), w)
}

/// Whether the given capabilities allow running the query.
pub fn check_query_capabilities(query_str: &str, capabilities: u8) -> (r: bool)
    requires
        !check_stops(query_str@, capabilities),
    ensures
        r == spec_check_capabilities(query_str@, capabilities),
{
    if capabilities == CAP_ROOT {
        return true;
    }
    let t = crate::text::chars_of(crate::text::str_trim(query_str));
    let is_tail = (crate::parser::has_lit_exec(t.as_slice(), 0, "tail(\"") && ends_with_exec(
        t.as_slice(),
        "\")",
    )) || (crate::parser::has_lit_exec(t.as_slice(), 0, "tail('") && ends_with_exec(t.as_slice(), "')"));
    if is_tail {
        return capabilities & CAP_READ != 0;
    }
    match crate::query_parser::parse_query(query_str) {
        Ok(q) => match q {
            crate::types::Query::Insert { .. } | crate::types::Query::InsertBatch { .. }
            | crate::types::Query::Upsert { .. } | crate::types::Query::UpsertBatch { .. }
            | crate::types::Query::Update { .. } | crate::types::Query::PipelineUpdate { .. } => capabilities
                & CAP_INSERT != 0,
            crate::types::Query::DeleteKey { .. } | crate::types::Query::Empty { .. }
            | crate::types::Query::PipelineDelete { .. } => capabilities & CAP_DELETE != 0,
            crate::types::Query::Drop { .. } => capabilities & CAP_ROOT == CAP_ROOT,
            crate::types::Query::Pipeline(stages) => {
                let mut requires_delete = false;
                let mut i: usize = 0;
                while i < stages.len()
                    invariant
                        i <= stages@.len(),
                        requires_delete == (exists|k: int|
                            0 <= k < i && (#[trigger] stages@[k]@ is Delete || stages@[k]@ is Trash)),
                    decreases stages.len() - i,
                {
                    let is_del = match &stages[i] {
                        crate::types::PipelineStage::Delete | crate::types::PipelineStage::Trash => true,
                        _ => false,
                    };
                    proof {
                        assert(is_del == (stages@[i as int]@ is Delete || stages@[i as int]@ is Trash));
                    }
                    if is_del {
                        requires_delete = true;
                    }
                    i += 1;
                }
                proof {
                    let sv = crate::types::stages_view(stages@);
                    assert(requires_delete == has_delete_stage(sv)) by {
                        if requires_delete {
                            let k = choose|k: int|
                                0 <= k < stages@.len() && (#[trigger] stages@[k]@ is Delete
                                    || stages@[k]@ is Trash);
                            assert(sv[k] == stages@[k]@);
                        }
                        if has_delete_stage(sv) {
                            let k = choose|k: int|
                                0 <= k < sv.len() && (#[trigger] sv[k] is Delete || sv[k] is Trash);
                            assert(sv[k] == stages@[k]@);
                        }
                    }
                }
                if requires_delete {
                    capabilities & CAP_DELETE != 0
                } else {
                    capabilities & CAP_READ != 0
                }
            },
            _ => capabilities & CAP_READ != 0,
        },
        Err(_) => true,
    }
}


// ------------------------------------------------------------- identities

#[verifier::external_type_specification]
#[verifier::external_body]
pub struct ExInstant(std::time::Instant);

/// A stored access key.
pub struct AuthKeyRecord {
    pub key_id: String,
    pub role: String,
    pub auth_key: String,
    pub status: String,
    pub allowed_tags: Vec<u32>,
}

/// A logged-in console session. The role is the one at login time.
pub struct SessionInfo {
    pub user_id: String,
    pub role: String,
    pub last_seen: std::time::Instant,
}

/// An authenticated client and what it may do.
pub struct ClientIdentity {
    pub client_cn: String,
    pub capabilities: u8,
    pub allowed_tags: Vec<u32>,
    pub auth_key_hash: String,
}

} // verus!
