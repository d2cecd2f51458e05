//! The parts of query execution that are decisions on records and stages:
//! key checks, key extraction from pipelines, the event-sequence matcher,
//! and the stages that select, page or count records.
use crate::error::LivenError;
use crate::storage::key::StreamKey;
use crate::types::{DataValue, DataValueV, FilterExpr, FilterExprV, JsonV, JsonValue, Op, PipelineStage, Record, StageV};
use crate::query_parser::{obj_insert, obj_insert_exec};
use vstd::prelude::*;
use vstd::string::StringSliceAdditionalSpecFns;

verus! {

/// Refuses keys longer than 32 bytes.
pub fn validate_key_length(key: &str) -> (r: Result<(), LivenError>)
    ensures
        key.spec_bytes().len() <= 32 ==> r is Ok,
        key.spec_bytes().len() > 32 ==> (r matches Err(LivenError::KeyTooLong { len, key: k }) && len
            == key.spec_bytes().len() && k@ == key@),
{
    let n = key.as_bytes().len();
    if n > 32 {
        return Err(LivenError::KeyTooLong { len: n, key: crate::text::owned(key) });
    }
    Ok(())
}

/// The count of the first `limit` stage, if any.
pub open spec fn spec_limit_of(stages: Seq<StageV>) -> Option<usize>
    decreases stages.len(),
{
    if stages.len() == 0 {
        None
    } else {
        match stages[0] {
            StageV::Limit { count } => Some(count),
            _ => spec_limit_of(stages.drop_first()),
        }
    }
}

/// The count of the first `limit` stage, if any.
pub fn get_limit_from_stages(stages: &[PipelineStage]) -> (r: Option<usize>)
    ensures
        r == spec_limit_of(Seq::new(stages@.len(), |i: int| stages@[i]@)),
{
    let ghost sv = Seq::new(stages@.len(), |i: int| stages@[i]@);
    let mut i: usize = 0;
    assert(sv.subrange(0, sv.len() as int) =~= sv);
    while i < stages.len()
        invariant
            i <= stages@.len(),
            sv == Seq::new(stages@.len(), |k: int| stages@[k]@),
            spec_limit_of(sv) == spec_limit_of(sv.subrange(i as int, sv.len() as int)),
        decreases stages.len() - i,
    {
        let ghost rest = sv.subrange(i as int, sv.len() as int);
        assert(rest[0] == stages@[i as int]@);
        assert(rest.drop_first() =~= sv.subrange(i + 1, sv.len() as int));
        if let PipelineStage::Limit { count } = &stages[i] {
            return Some(*count);
        }
        i += 1;
    }
    None
}

/// A key that a filter pins down: `key == "k"`, also inside `and` (left
/// first) and `not`.
pub open spec fn spec_key_of_filter(e: FilterExprV) -> Option<Seq<char>>
    decreases e,
{
    match e {
        FilterExprV::Simple { field, operator, value } => if field == "key"@ && operator == Op::Eq
            && value is Str {
            Some(value->Str_0)
        } else {
            None
        },
        FilterExprV::And { left, right } => match spec_key_of_filter(*left) {
            Some(k) => Some(k),
            None => spec_key_of_filter(*right),
        },
        FilterExprV::Not { expr } => spec_key_of_filter(*expr),
        _ => None,
    }
}

/// A key that a filter pins down (see [`spec_key_of_filter`]).
pub fn extract_key_from_filter(expr: &FilterExpr) -> (r: Option<String>)
    ensures
        match spec_key_of_filter(expr@) {
            Some(k) => (r matches Some(x) && x@ == k),
            None => r is None,
        },
    decreases expr,
{
    match expr {
        FilterExpr::Simple { field, operator, value } => {
            proof {
                reveal_strlit("key");
            }
            if crate::text::chars_eq_str(crate::text::chars_of(field.as_str()).as_slice(), "key") && *operator
                == Op::Eq {
                if let DataValue::String(k) = value {
                    return Some(k.clone());
                }
            }
            None
        },
        FilterExpr::And { left, right } => match extract_key_from_filter(left) {
            Some(k) => Some(k),
            None => extract_key_from_filter(right),
        },
        FilterExpr::Not { expr } => extract_key_from_filter(expr),
        _ => None,
    }
}

/// The first key that the pipeline pins down: a `get` stage's key or a
/// filter's key, whichever comes first.
pub open spec fn spec_unique_key(stages: Seq<StageV>) -> Option<Seq<char>>
    decreases stages.len(),
{
    if stages.len() == 0 {
        None
    } else {
        match stages[0] {
            StageV::Get { key } => Some(key),
            StageV::Filter { expr } => match spec_key_of_filter(expr) {
                Some(k) => Some(k),
                None => spec_unique_key(stages.drop_first()),
            },
            _ => spec_unique_key(stages.drop_first()),
        }
    }
}

/// The first key that the pipeline pins down (see [`spec_unique_key`]).
pub fn extract_unique_key_from_pipeline(stages: &[PipelineStage]) -> (r: Option<String>)
    ensures
        match spec_unique_key(Seq::new(stages@.len(), |i: int| stages@[i]@)) {
            Some(k) => (r matches Some(x) && x@ == k),
            None => r is None,
        },
{
    let ghost sv = Seq::new(stages@.len(), |i: int| stages@[i]@);
    let mut i: usize = 0;
    assert(sv.subrange(0, sv.len() as int) =~= sv);
    while i < stages.len()
        invariant
            i <= stages@.len(),
            sv == Seq::new(stages@.len(), |k: int| stages@[k]@),
            spec_unique_key(sv) == spec_unique_key(sv.subrange(i as int, sv.len() as int)),
        decreases stages.len() - i,
    {
        let ghost rest = sv.subrange(i as int, sv.len() as int);
        assert(rest[0] == stages@[i as int]@);
        assert(rest.drop_first() =~= sv.subrange(i + 1, sv.len() as int));
        match &stages[i] {
            PipelineStage::Get { key } => {
                return Some(key.clone());
            },
            PipelineStage::Filter { expr } => {
                if let Some(k) = extract_key_from_filter(expr) {
                    return Some(k);
                }
            },
            _ => {},
        }
        i += 1;
    }
    None
}

/// Whether a filter compares the key for equality, also inside `and`.
pub open spec fn spec_is_key_equality(e: FilterExprV) -> bool
    decreases e,
{
    match e {
        FilterExprV::Simple { field, operator, .. } => field == "key"@ && operator == Op::Eq,
        FilterExprV::And { left, right } => spec_is_key_equality(*left) || spec_is_key_equality(*right),
        _ => false,
    }
}

/// Whether a filter compares the key for equality (see [`spec_is_key_equality`]).
pub fn is_key_equality_filter(expr: &FilterExpr) -> (r: bool)
    ensures
        r == spec_is_key_equality(expr@),
    decreases expr,
{
    proof {
        reveal_strlit("key");
    }
    match expr {
        FilterExpr::Simple { field, operator, .. } => crate::text::chars_eq_str(
            crate::text::chars_of(field.as_str()).as_slice(),
            "key",
        ) && *operator == Op::Eq,
        FilterExpr::And { left, right } => is_key_equality_filter(left) || is_key_equality_filter(right),
        _ => false,
    }
}


// --------------------------------------------------------- sequence matcher

/// Detects an ordered sequence of events within a time window: records are
/// fed in order, and the record that completes the sequence is returned.
///
/// Which steps a record satisfies is decided by evaluating the step's filter
/// on the record (the caller does that and passes the outcome).
pub struct SequenceMatcher {
    steps: Vec<FilterExpr>,
    current_step: usize,
    window_start_ms: i64,
    within_ms: u64,
    partial_matches: Vec<Record>,
}

impl SequenceMatcher {
    /// The step that the next record is matched against.
    pub closed spec fn step(&self) -> usize {
        self.current_step
    }

    /// The number of steps.
    pub closed spec fn n_steps(&self) -> nat {
        self.steps@.len()
    }

    /// When the current attempt started.
    pub closed spec fn window_start(&self) -> i64 {
        self.window_start_ms
    }

    /// The window's length in ms.
    pub closed spec fn within(&self) -> u64 {
        self.within_ms
    }

    /// The records matched so far in the current attempt.
    pub closed spec fn partial(&self) -> Seq<Record> {
        self.partial_matches@
    }

    /// The models of the step filters.
    pub closed spec fn steps_view(&self) -> Seq<FilterExprV> {
        crate::types::filters_view(self.steps@)
    }

    /// The matcher's state is consistent: the current step is a step, and
    /// one record is held for each step already matched.
    pub closed spec fn wf(&self) -> bool {
        &&& self.current_step < self.steps@.len()
        &&& self.partial_matches@.len() == self.current_step
    }

    /// A consistent matcher's current step is one of its steps, with one
    /// record held for each step matched.
    pub proof fn lemma_wf_step(&self)
        requires
            self.wf(),
        ensures
            self.step() < self.n_steps(),
            self.partial().len() == self.step(),
    {
    }

    /// A matcher for the given steps and window.
    pub fn new(steps: Vec<FilterExpr>, within_ms: u64) -> (m: SequenceMatcher)
        ensures
            m.step() == 0,
            m.window_start() == 0,
            m.within() == within_ms,
            m.partial() == Seq::<Record>::empty(),
            m.steps_view() == crate::types::filters_view(steps@),
            m.n_steps() == steps@.len(),
            steps@.len() > 0 ==> m.wf(),
    {
        SequenceMatcher { steps, current_step: 0, window_start_ms: 0, within_ms, partial_matches: Vec::new() }
    }

    /// The step that the next record is matched against.
    pub fn current_step(&self) -> (r: usize)
        ensures
            r == self.step(),
    {
        self.current_step
    }

    /// When the current attempt started.
    pub fn window_start_ms(&self) -> (r: i64)
        ensures
            r == self.window_start(),
    {
        self.window_start_ms
    }

    /// The filter of step `i`.
    pub fn step_filter(&self, i: usize) -> (r: &FilterExpr)
        requires
            i < self.n_steps(),
        ensures
            r@ == self.steps_view()[i as int],
    {
        &self.steps[i]
    }

    /// Drops the current attempt.
    pub fn reset(&mut self)
        ensures
            final(self).step() == 0,
            final(self).window_start() == 0,
            final(self).partial() == Seq::<Record>::empty(),
            final(self).within() == old(self).within(),
            final(self).steps_view() == old(self).steps_view(),
            final(self).n_steps() == old(self).n_steps(),
    {
        self.current_step = 0;
        self.window_start_ms = 0;
        self.partial_matches.clear();
    }

    /// Feeds one record. `first_matches` tells whether it satisfies the first
    /// step, `current_matches` whether it satisfies the current step. A record
    /// later than the window after the attempt's start drops the attempt and
    /// may start a new one. Returns the record when it completes the sequence
    /// (for a one-step sequence, any record that satisfies the step).
    pub fn process(&mut self, record: Record, first_matches: bool, current_matches: bool) -> (r: Option<Record>)
        requires
            old(self).wf(),
            old(self).step() > 0 ==> i64::MIN <= record.timestamp - old(self).window_start() <= i64::MAX,
        ensures
            final(self).wf(),
            final(self).within() == old(self).within(),
            final(self).steps_view() == old(self).steps_view(),
            final(self).n_steps() == old(self).n_steps(),
            old(self).step() == 0 ==> (if first_matches {
                if old(self).n_steps() == 1 {
                    r == Some(record) && final(self).step() == 0 && final(self).window_start() == 0
                        && final(self).partial() == Seq::<Record>::empty()
                } else {
                    r is None && final(self).step() == 1 && final(self).window_start() == record.timestamp
                        && final(self).partial() == seq![record]
                }
            } else {
                r is None && final(self).step() == 0 && final(self).window_start() == old(self).window_start()
                    && final(self).partial() == old(self).partial()
            }),
            old(self).step() > 0 && record.timestamp - old(self).window_start() > old(self).within() as i64
                ==> r is None && (if first_matches {
                final(self).step() == 1 && final(self).window_start() == record.timestamp
                    && final(self).partial() == seq![record]
            } else {
                final(self).step() == 0 && final(self).window_start() == 0 && final(self).partial()
                    == Seq::<Record>::empty()
            }),
            old(self).step() > 0 && record.timestamp - old(self).window_start() <= old(self).within() as i64
                ==> (if current_matches {
                if old(self).step() + 1 >= old(self).n_steps() {
                    r == Some(record) && final(self).step() == 0 && final(self).window_start() == 0
                        && final(self).partial() == Seq::<Record>::empty()
                } else {
                    r is None && final(self).step() == old(self).step() + 1 && final(self).window_start()
                        == old(self).window_start() && final(self).partial() == old(self).partial().push(
                        record,
                    )
                }
            } else {
                r is None && final(self).step() == old(self).step() && final(self).window_start()
                    == old(self).window_start() && final(self).partial() == old(self).partial()
            }),
    {
        let n = self.steps.len();
        if self.current_step == 0 {
            if first_matches {
                self.window_start_ms = record.timestamp;
                self.current_step = 1;
                self.partial_matches.push(record);
                if self.current_step >= self.steps.len() {
                    let completed = self.partial_matches.pop();
                    self.reset();
                    return completed;
                }
            }
            return None;
        }
        if record.timestamp - self.window_start_ms > self.within_ms as i64 {
            self.reset();
            if first_matches {
                self.window_start_ms = record.timestamp;
                self.current_step = 1;
                self.partial_matches.push(record);
            }
            return None;
        }
        if current_matches {
            self.current_step += 1;
            self.partial_matches.push(record);
            if self.current_step >= self.steps.len() {
                let completed = self.partial_matches.pop();
                self.reset();
                return completed;
            }
        }
        None
    }
}


// -------------------------------------------------------- selecting stages

/// Which records a selecting stage keeps.
pub enum Selector {
    /// Records of this stream.
    Stream(String),
    /// Deleted records (a tombstone that is not in the trash).
    Deleted,
    /// Records in the trash, or under the key `*`.
    Trashed,
    /// Records under this key.
    Key(String),
    /// Records whose key sorts after the cursor.
    After(String),
}

/// The model of a [`Selector`].
pub enum SelectorV {
    Stream(Seq<char>),
    Deleted,
    Trashed,
    Key(Seq<char>),
    After(Seq<char>),
}

impl View for Selector {
    type V = SelectorV;

    open spec fn view(&self) -> SelectorV {
        match self {
            Selector::Stream(n) => SelectorV::Stream(n@),
            Selector::Deleted => SelectorV::Deleted,
            Selector::Trashed => SelectorV::Trashed,
            Selector::Key(k) => SelectorV::Key(k@),
            Selector::After(c) => SelectorV::After(c@),
        }
    }
}

/// Bytewise string order (std `Ord for str`): the first differing byte
/// decides, a proper prefix first.
pub open spec fn bytes_lt(a: Seq<u8>, b: Seq<u8>) -> bool
    decreases a.len(),
{
    if a.len() == 0 {
        b.len() > 0
    } else if b.len() == 0 {
        false
    } else if a[0] != b[0] {
        a[0] < b[0]
    } else {
        bytes_lt(a.drop_first(), b.drop_first())
    }
}

/// The text of a stored key as the engine reads it (`StreamKey::as_str`):
/// its bytes when they are UTF-8, else the empty text.
pub open spec fn key_text_bytes(k: Seq<u8>) -> Seq<u8> {
    if vstd::utf8::valid_utf8(k) {
        k
    } else {
        Seq::empty()
    }
}

/// Whether a selector keeps a record.
pub open spec fn spec_selects(sel: SelectorV, r: Record) -> bool {
    match sel {
        SelectorV::Stream(n) => r.stream_name@ == n,
        SelectorV::Deleted => r.flags & 0x02 != 0 && r.flags & 0x04 == 0,
        SelectorV::Trashed => r.flags & 0x04 != 0 || key_text_bytes(r.key@) == seq![42u8],
        SelectorV::Key(k) => key_text_bytes(r.key@) == vstd::utf8::encode_utf8(k),
        SelectorV::After(c) => bytes_lt(vstd::utf8::encode_utf8(c), key_text_bytes(r.key@)),
    }
}

/// The records that a selector keeps, in order.
pub open spec fn keep(s: Seq<Record>, sel: SelectorV) -> Seq<Record>
    decreases s.len(),
{
    if s.len() == 0 {
        Seq::empty()
    } else if spec_selects(sel, s.last()) {
        keep(s.drop_last(), sel).push(s.last())
    } else {
        keep(s.drop_last(), sel)
    }
}

/// Selecting records keeps exactly those that the selector accepts, in
/// their order: a filter of the records.
pub proof fn lemma_keep_is_filter(s: Seq<Record>, sel: SelectorV)
    ensures
        keep(s, sel) == s.filter(|r: Record| spec_selects(sel, r)),
    decreases s.len(),
{
    reveal(Seq::filter);
    if s.len() > 0 {
        lemma_keep_is_filter(s.drop_last(), sel);
    }
}

fn bytes_eq(a: &[u8], b: &[u8]) -> (r: bool)
    ensures
        r == (a@ == b@),
{
    if a.len() != b.len() {
        return false;
    }
    let mut i: usize = 0;
    while i < a.len()
        invariant
            i <= a@.len() == b@.len(),
            forall|k: int| 0 <= k < i ==> a@[k] == b@[k],
        decreases a.len() - i,
    {
        if a[i] != b[i] {
            return false;
        }
        i += 1;
    }
    assert(a@ =~= b@);
    true
}

pub(crate) fn bytes_lt_exec(a: &[u8], b: &[u8]) -> (r: bool)
    ensures
        r == bytes_lt(a@, b@),
{
    let mut i: usize = 0;
    assert(a@.subrange(0, a@.len() as int) =~= a@);
    assert(b@.subrange(0, b@.len() as int) =~= b@);
    while i < a.len() && i < b.len() && a[i] == b[i]
        invariant
            i <= a@.len(),
            i <= b@.len(),
            bytes_lt(a@, b@) == bytes_lt(a@.subrange(i as int, a@.len() as int), b@.subrange(i as int, b@.len() as int)),
        decreases a.len() - i,
    {
        assert(a@.subrange(i as int, a@.len() as int).drop_first() =~= a@.subrange(i + 1, a@.len() as int));
        assert(b@.subrange(i as int, b@.len() as int).drop_first() =~= b@.subrange(i + 1, b@.len() as int));
        i += 1;
    }
    if i == a.len() {
        i < b.len()
    } else if i == b.len() {
        false
    } else {
        assert(a@.subrange(i as int, a@.len() as int)[0] == a@[i as int]);
        assert(b@.subrange(i as int, b@.len() as int)[0] == b@[i as int]);
        a[i] < b[i]
    }
}

/// The bytes of a stored key as the engine reads it.
fn key_text_of(k: &StreamKey) -> (r: &[u8])
    ensures
        r@ == key_text_bytes(k@),
{
    match crate::storage::key::str_from_utf8(k.as_bytes()) {
        Ok(_) => k.as_bytes(),
        Err(_) => {
            let e: &[u8] = &[];
            assert(e@ =~= Seq::<u8>::empty());
            e
        },
    }
}

/// Whether a selector keeps a record (see [`spec_selects`]).
pub fn selects(sel: &Selector, r: &Record) -> (b: bool)
    ensures
        b == spec_selects(sel@, *r),
{
    match sel {
        Selector::Stream(n) => crate::text::chars_eq_str(
            crate::text::chars_of(r.stream_name.as_str()).as_slice(),
            n.as_str(),
        ),
        Selector::Deleted => r.flags & 0x02 != 0 && r.flags & 0x04 == 0,
        Selector::Trashed => {
            let star: &[u8] = &[42u8];
            assert(star@ =~= seq![42u8]);
            r.flags & 0x04 != 0 || bytes_eq(key_text_of(&r.key), star)
        },
        Selector::Key(k) => bytes_eq(key_text_of(&r.key), k.as_str().as_bytes()),
        Selector::After(c) => bytes_lt_exec(c.as_str().as_bytes(), key_text_of(&r.key)),
    }
}

/// The records that a selector keeps, in order (see [`keep`]).
pub fn keep_records(records: Vec<Record>, sel: &Selector) -> (r: Vec<Record>)
    ensures
        r@ == keep(records@, sel@),
{
    let ghost orig = records@;
    let n = records.len();
    let mut src = records;
    let mut rev: Vec<Record> = Vec::new();
    while src.len() > 0
        invariant
            src@.len() + rev@.len() == n == orig.len(),
            src@ == orig.subrange(0, src@.len() as int),
            forall|t: int| 0 <= t < rev@.len() ==> #[trigger] rev@[t] == orig[n - 1 - t],
        decreases src@.len(),
    {
        let x = src.pop().unwrap();
        rev.push(x);
    }
    let mut out: Vec<Record> = Vec::new();
    let mut i: usize = 0;
    assert(orig.take(0) =~= Seq::<Record>::empty());
    while i < n
        invariant
            i <= n == orig.len(),
            rev@.len() == n - i,
            forall|t: int| 0 <= t < rev@.len() ==> #[trigger] rev@[t] == orig[n - 1 - t],
            out@ == keep(orig.take(i as int), sel@),
        decreases n - i,
    {
        let x = rev.pop().unwrap();
        proof {
            assert(x == orig[i as int]);
            assert(orig.take(i + 1).drop_last() =~= orig.take(i as int));
            assert(orig.take(i + 1).last() == orig[i as int]);
        }
        if selects(sel, &x) {
            out.push(x);
        }
        i += 1;
    }
    assert(orig.take(n as int) =~= orig);
    out
}

/// Whether paging would overflow the engine's arithmetic on this many records.
pub open spec fn page_overflows(len: nat, page_number: usize, page_size: usize) -> bool {
    page_number > 0 && page_size > 0 && ((page_number - 1) * page_size > usize::MAX || ((page_number - 1)
        * page_size < len && (page_number - 1) * page_size + page_size > usize::MAX))
}

/// The records of one page: pages count from 1; a zero page number or size
/// keeps all records.
pub open spec fn spec_page(s: Seq<Record>, page_number: usize, page_size: usize) -> Seq<Record> {
    if page_number > 0 && page_size > 0 {
        let start = (page_number - 1) * page_size;
        if start < s.len() {
            let end = if start + page_size < s.len() {
                start + page_size
            } else {
                s.len() as int
            };
            s.subrange(start, end)
        } else {
            Seq::empty()
        }
    } else {
        s
    }
}

/// A page holds the records from `(page_number - 1) * page_size` on, as many
/// as the page size or as remain, in their order; a page that starts past
/// the end is empty, and a zero page number or size keeps every record.
pub proof fn lemma_page_contents(s: Seq<Record>, page_number: usize, page_size: usize)
    ensures
        (page_number == 0 || page_size == 0) ==> spec_page(s, page_number, page_size) == s,
        page_number > 0 && page_size > 0 ==> ({
            let start = (page_number - 1) * page_size;
            let n = if start >= s.len() {
                0
            } else if s.len() - start < page_size {
                s.len() - start
            } else {
                page_size as int
            };
            &&& spec_page(s, page_number, page_size).len() == n
            &&& forall|i: int| 0 <= i < n ==> #[trigger] spec_page(s, page_number, page_size)[i] == s[start + i]
        }),
{
}

/// The records of one page (see [`spec_page`]).
pub fn page_records(records: Vec<Record>, page_number: usize, page_size: usize) -> (r: Vec<Record>)
    requires
        !page_overflows(records@.len(), page_number, page_size),
    ensures
        r@ == spec_page(records@, page_number, page_size),
{
    if page_number > 0 && page_size > 0 {
        let start = (page_number - 1) * page_size;
        let mut v = records;
        if start < v.len() {
            let end = if start + page_size < v.len() {
                start + page_size
            } else {
                v.len()
            };
            v.truncate(end);
            let tail = v.split_off(start);
            tail
        } else {
            Vec::new()
        }
    } else {
        records
    }
}


/// Whether the stage is one that [`apply_structural_stage`] applies.
pub open spec fn is_structural(stage: StageV) -> bool {
    stage is From || stage is Delete || stage is Trash || stage is Get || stage is Count || stage is Page
        || stage is PageCursor || stage is Limit
}

/// Applies a stage that selects, pages, limits or counts records. `now_ms`
/// is the time stamped on a count's result. Other stages hand the records
/// back unchanged as `Err`.
pub fn apply_structural_stage(records: Vec<Record>, stage: &PipelineStage, now_ms: i64) -> (r: Result<
    Vec<Record>,
    Vec<Record>,
>)
    requires
        stage@ matches StageV::Page { page_number, page_size } ==> !page_overflows(
            records@.len(),
            page_number,
            page_size,
        ),
    ensures
        !is_structural(stage@) ==> r == Err::<Vec<Record>, Vec<Record>>(records),
        is_structural(stage@) ==> r is Ok,
        match stage@ {
            StageV::From { stream_name } => r->Ok_0@ == keep(records@, SelectorV::Stream(stream_name)),
            StageV::Delete => r->Ok_0@ == keep(records@, SelectorV::Deleted),
            StageV::Trash => r->Ok_0@ == keep(records@, SelectorV::Trashed),
            StageV::Get { key } => r->Ok_0@ == keep(records@, SelectorV::Key(key)),
            StageV::PageCursor { cursor, page_size } => {
                let kept = keep(records@, SelectorV::After(cursor));
                r->Ok_0@ == (if page_size < kept.len() {
                    kept.subrange(0, page_size as int)
                } else {
                    kept
                })
            },
            StageV::Limit { count } => r->Ok_0@ == (if count < records@.len() {
                records@.subrange(0, count as int)
            } else {
                records@
            }),
            StageV::Page { page_number, page_size } => r->Ok_0@ == spec_page(records@, page_number, page_size),
            StageV::Count => {
                &&& r->Ok_0@.len() == 1
                &&& r->Ok_0@[0].sequence_id == 1
                &&& r->Ok_0@[0].timestamp == now_ms
                &&& r->Ok_0@[0].type_tag == 3
                &&& r->Ok_0@[0].flags == 0x01
                &&& r->Ok_0@[0].stream_name@ == (if records@.len() > 0 {
                    records@[0].stream_name@
                } else {
                    "stream"@
                })
                &&& r->Ok_0@[0].key@ == seq![99u8, 111u8, 117u8, 110u8, 116u8]
                &&& r->Ok_0@[0].value == DataValue::UInt(records@.len() as u64)
            },
            _ => true,
        },
{
    match stage {
        PipelineStage::From { stream_name } => Ok(keep_records(records, &Selector::Stream(stream_name.clone()))),
        PipelineStage::Delete => Ok(keep_records(records, &Selector::Deleted)),
        PipelineStage::Trash => Ok(keep_records(records, &Selector::Trashed)),
        PipelineStage::Get { key } => Ok(keep_records(records, &Selector::Key(key.clone()))),
        PipelineStage::PageCursor { cursor, page_size } => {
            let mut kept = keep_records(records, &Selector::After(cursor.clone()));
            kept.truncate(*page_size);
            Ok(kept)
        },
        PipelineStage::Limit { count } => {
            let mut v = records;
            v.truncate(*count);
            Ok(v)
        },
        PipelineStage::Page { page_number, page_size } => Ok(page_records(records, *page_number, *page_size)),
        PipelineStage::Count => {
            let count = records.len() as u64;
            let stream_name = if records.len() > 0 {
                records[0].stream_name.clone()
            } else {
                crate::text::owned("stream")
            };
            proof {
                reveal_strlit("count");
                vstd::string::is_ascii_spec_bytes("count");
                assert(vstd::string::is_ascii("count"));
                assert("count".spec_bytes() =~= seq![99u8, 111u8, 117u8, 110u8, 116u8]);
            }
            let key = StreamKey::from_str_truncated("count");
            let mut out: Vec<Record> = Vec::new();
            out.push(
                Record {
                    sequence_id: 1,
                    timestamp: now_ms,
                    type_tag: 3,
                    flags: 0x01,
                    stream_name,
                    key,
                    value: DataValue::UInt(count),
                },
            );
            Ok(out)
        },
        _ => Err(records),
    }
}


/// A joined record's document: the source's fields (or, for a source that is
/// not an object, the source under `value`) with the target's document set
/// under the target stream's name.
pub open spec fn joined(source: JsonV, target: JsonV, target_stream: Seq<char>) -> JsonV {
    match source {
        JsonV::Object(m) => JsonV::Object(obj_insert(m, target_stream, target)),
        other => JsonV::Object(obj_insert(seq![("value"@, other)], target_stream, target)),
    }
}

/// Merges a join target's document into the source record's document
/// (see [`joined`]).
pub fn merge_joined(source: JsonValue, target: JsonValue, target_stream: String) -> (r: JsonValue)
    ensures
        r@ == joined(source@, target@, target_stream@),
{
    let mut m: Vec<(String, JsonValue)> = match source {
        JsonValue::Object(m) => m,
        other => {
            let mut v: Vec<(String, JsonValue)> = Vec::new();
            v.push((String::from_str("value"), other));
            proof {
                reveal_strlit("value");
                crate::query_parser::lemma_json_entries_view_index(v@);
                assert(crate::types::json_entries_view(v@) =~= seq![("value"@, other@)]);
            }
            v
        },
    };
    obj_insert_exec(&mut m, target_stream, target);
    JsonValue::Object(m)
}

} // verus!
