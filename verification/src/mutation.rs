//! What a write query does to the store: the checks that refuse it, and
//! the appends and tombstones that carry it out, decided from the primary
//! index and the set of known streams. The engine performs the steps.
use crate::error::LivenError;
use crate::parser::nat_text;
use crate::query_parser::lemma_json_entries_view_index;
use crate::storage::index::{compound, KeyIndex};
use crate::types::{json_entries_view, json_values_view, strings_view, DataValue, DataValueV, JsonV, JsonValue, LogPointer};
use vstd::prelude::*;
use vstd::string::StringSliceAdditionalSpecFns;
use vstd::utf8::encode_utf8;

verus! {

/// One step of a write.
pub enum MutationStep {
    /// Append a live record for the key.
    Append { key: String, value: JsonValue },
    /// Append a tombstone for the key.
    Tombstone { key: String },
    /// Merge the update into the key's current value and append the result.
    Rewrite { key: String, update: JsonValue },
    /// Append tombstones for all these keys in one group commit.
    TombstoneKeys { keys: Vec<String> },
}

/// The model of a step.
pub enum MutationStepV {
    Append(Seq<char>, JsonV),
    Tombstone(Seq<char>),
    Rewrite(Seq<char>, JsonV),
    TombstoneKeys(Seq<Seq<char>>),
}

impl View for MutationStep {
    type V = MutationStepV;

    open spec fn view(&self) -> MutationStepV {
        match self {
            MutationStep::Append { key, value } => MutationStepV::Append(key@, value@),
            MutationStep::Tombstone { key } => MutationStepV::Tombstone(key@),
            MutationStep::Rewrite { key, update } => MutationStepV::Rewrite(key@, update@),
            MutationStep::TombstoneKeys { keys } => MutationStepV::TombstoneKeys(strings_view(keys@)),
        }
    }
}

/// The models of some steps, in order.
pub open spec fn steps_view(v: Seq<MutationStep>) -> Seq<MutationStepV> {
    Seq::new(v.len(), |i: int| v[i]@)
}

/// Whether a key is too long to store (more than 32 bytes).
pub open spec fn is_long(key: Seq<char>) -> bool {
    encode_utf8(key).len() > 32
}

/// Whether the index holds the key of the stream.
pub open spec fn filed(m: Map<Seq<char>, LogPointer>, stream: Seq<char>, key: Seq<char>) -> bool {
    m.contains_key(compound(stream, key))
}

/// The message for a stream that is not known.
pub open spec fn stream_missing_text(stream: Seq<char>) -> Seq<char> {
    "Stream '"@ + stream + "' does not exist"@
}

/// The message when `insert` meets a key that is already stored.
pub open spec fn key_exists_text(key: Seq<char>, stream: Seq<char>) -> Seq<char> {
    "Key '"@ + key + "' already exists in stream '"@ + stream
        + "'.\n   Use upsert to overwrite an existing key or\n   update to merge changes into an existing record."@
}

/// The message when a batch insert meets a key that is already stored.
pub open spec fn batch_key_exists_text(key: Seq<char>, stream: Seq<char>) -> Seq<char> {
    "Key '"@ + key + "' already exists in stream '"@ + stream + "' (batch insertion aborted)"@
}

/// Whether the error is the key-length refusal of `key`.
pub open spec fn is_too_long_error(e: LivenError, key: Seq<char>) -> bool {
    e matches LivenError::KeyTooLong { len, key: k } && len == encode_utf8(key).len() && k@ == key
}

/// Whether the error is a query error with this message.
pub open spec fn is_query_error(e: LivenError, msg: Seq<char>) -> bool {
    e matches LivenError::Query(m) && m@ == msg
}

/// The keys of a batch.
pub open spec fn batch_keys(b: Seq<(Seq<char>, JsonV)>) -> Seq<Seq<char>> {
    Seq::new(b.len(), |i: int| b[i].0)
}

/// The position of the first key that is too long (the number of keys if none is).
pub open spec fn first_long(keys: Seq<Seq<char>>) -> nat
    decreases keys.len(),
{
    if keys.len() == 0 {
        0
    } else if is_long(keys[0]) {
        0
    } else {
        1 + first_long(keys.drop_first())
    }
}

/// The position of the first key that the index holds (the number of keys if none).
pub open spec fn first_filed(m: Map<Seq<char>, LogPointer>, stream: Seq<char>, keys: Seq<Seq<char>>) -> nat
    decreases keys.len(),
{
    if keys.len() == 0 {
        0
    } else if filed(m, stream, keys[0]) {
        0
    } else {
        1 + first_filed(m, stream, keys.drop_first())
    }
}

/// The steps of an upsert batch: each key that is stored, or was written
/// earlier in the batch, is tombstoned before its value is appended.
pub open spec fn upsert_steps(m: Map<Seq<char>, LogPointer>, stream: Seq<char>, b: Seq<(Seq<char>, JsonV)>) -> Seq<
    MutationStepV,
>
    decreases b.len(),
{
    if b.len() == 0 {
        Seq::empty()
    } else {
        let k = b.last().0;
        let before = b.drop_last();
        let present = filed(m, stream, k) || batch_keys(before).contains(k);
        upsert_steps(m, stream, before) + (if present {
            seq![MutationStepV::Tombstone(k)]
        } else {
            Seq::empty()
        }) + seq![MutationStepV::Append(k, b.last().1)]
    }
}

fn check_key(key: &String) -> (r: Result<(), LivenError>)
    ensures
        !is_long(key@) ==> r is Ok,
        is_long(key@) ==> (r matches Err(e) && is_too_long_error(e, key@)),
{
    let s = key.as_str();
    assert(s.spec_bytes() == encode_utf8(key@));
    crate::executor::validate_key_length(s)
}

fn stream_known(streams: &[String], stream: &String) -> (r: bool)
    ensures
        r == strings_view(streams@).contains(stream@),
{
    let mut i: usize = 0;
    while i < streams.len()
        invariant
            i <= streams@.len(),
            forall|j: int| 0 <= j < i ==> streams@[j]@ != stream@,
        decreases streams@.len() - i,
    {
        if streams[i] == *stream {
            assert(strings_view(streams@)[i as int] == stream@);
            return true;
        }
        i += 1;
    }
    proof {
        if strings_view(streams@).contains(stream@) {
            let j = choose|j: int| 0 <= j < strings_view(streams@).len() && strings_view(streams@)[j] == stream@;
            assert(streams@[j]@ == stream@);
        }
    }
    false
}

fn missing_stream(stream: &String) -> (e: LivenError)
    ensures
        is_query_error(e, stream_missing_text(stream@)),
{
    let mut m = crate::text::owned("Stream '");
    m.append(stream.as_str());
    m.append("' does not exist");
    LivenError::Query(m)
}

fn is_filed(index: &KeyIndex, stream: &String, key: &String) -> (r: bool)
    ensures
        r == filed(index@, stream@, key@),
{
    index.get(stream.as_str(), key.as_str()).is_some()
}

/// `insert`: refused when the key is too long or already stored; otherwise
/// one append.
pub fn plan_insert(stream_name: &String, key: String, value: JsonValue, index: &KeyIndex) -> (r: Result<
    Vec<MutationStep>,
    LivenError,
>)
    ensures
        is_long(key@) ==> (r matches Err(e) && is_too_long_error(e, key@)),
        !is_long(key@) && filed(index@, stream_name@, key@) ==> (r matches Err(e) && is_query_error(
            e,
            key_exists_text(key@, stream_name@),
        )),
        !is_long(key@) && !filed(index@, stream_name@, key@) ==> (r matches Ok(steps) && steps_view(steps@) == seq![
            MutationStepV::Append(key@, value@),
        ]),
{
    if let Err(e) = check_key(&key) {
        return Err(e);
    }
    if is_filed(index, stream_name, &key) {
        let mut m = crate::text::owned("Key '");
        m.append(key.as_str());
        m.append("' already exists in stream '");
        m.append(stream_name.as_str());
        m.append("'.\n   Use upsert to overwrite an existing key or\n   update to merge changes into an existing record.");
        return Err(LivenError::Query(m));
    }
    let mut steps: Vec<MutationStep> = Vec::new();
    steps.push(MutationStep::Append { key, value });
    assert(steps_view(steps@) =~= seq![MutationStepV::Append(key@, value@)]);
    Ok(steps)
}

/// `upsert`: refused when the key is too long; a stored key is tombstoned
/// before the value is appended.
pub fn plan_upsert(stream_name: &String, key: String, value: JsonValue, index: &KeyIndex) -> (r: Result<
    Vec<MutationStep>,
    LivenError,
>)
    ensures
        is_long(key@) ==> (r matches Err(e) && is_too_long_error(e, key@)),
        !is_long(key@) ==> (r matches Ok(steps) && steps_view(steps@) == upsert_steps(
            index@,
            stream_name@,
            seq![(key@, value@)],
        )),
{
    if let Err(e) = check_key(&key) {
        return Err(e);
    }
    let ghost b = seq![(key@, value@)];
    let mut steps: Vec<MutationStep> = Vec::new();
    let present = is_filed(index, stream_name, &key);
    let k2 = key.clone();
    if present {
        steps.push(MutationStep::Tombstone { key: k2 });
    }
    steps.push(MutationStep::Append { key, value });
    proof {
        assert(b.drop_last() =~= Seq::<(Seq<char>, JsonV)>::empty());
        assert(batch_keys(b.drop_last()) =~= Seq::<Seq<char>>::empty());
        assert(upsert_steps(index@, stream_name@, b.drop_last()) =~= Seq::<MutationStepV>::empty());
        assert(steps_view(steps@) =~= upsert_steps(index@, stream_name@, b));
    }
    Ok(steps)
}

fn take_entries(batch: Vec<(String, JsonValue)>) -> (r: Vec<(String, JsonValue)>)
    ensures
        r@.len() == batch@.len(),
        forall|t: int| 0 <= t < r@.len() ==> #[trigger] r@[t] == batch@[batch@.len() - 1 - t],
{
    let ghost orig = batch@;
    let n = batch.len();
    let mut src = batch;
    let mut rev: Vec<(String, JsonValue)> = Vec::new();
    while src.len() > 0
        invariant
            src@.len() + rev@.len() == n == orig.len(),
            src@ == orig.subrange(0, src@.len() as int),
            forall|t: int| 0 <= t < rev@.len() ==> #[trigger] rev@[t] == orig[n - 1 - t],
        decreases src@.len(),
    {
        let x = src.pop().unwrap();
        rev.push(x);
    }
    rev
}

fn check_keys(batch: &Vec<(String, JsonValue)>) -> (r: Result<(), LivenError>)
    ensures
        ({
            let keys = batch_keys(json_entries_view(batch@));
            &&& first_long(keys) == keys.len() ==> r is Ok
            &&& first_long(keys) < keys.len() ==> (r matches Err(e) && is_too_long_error(e, keys[first_long(keys) as int]))
        }),
{
    let ghost keys = batch_keys(json_entries_view(batch@));
    proof {
        lemma_json_entries_view_index(batch@);
    }
    let mut i: usize = 0;
    assert(keys.subrange(0, keys.len() as int) =~= keys);
    while i < batch.len()
        invariant
            i <= batch@.len() == keys.len(),
            keys == batch_keys(json_entries_view(batch@)),
            forall|t: int| 0 <= t < keys.len() ==> #[trigger] keys[t] == batch@[t].0@,
            first_long(keys) >= i,
            first_long(keys) == i + first_long(keys.subrange(i as int, keys.len() as int)),
        decreases batch@.len() - i,
    {
        let ghost rest = keys.subrange(i as int, keys.len() as int);
        assert(rest[0] == keys[i as int]);
        assert(rest.drop_first() =~= keys.subrange(i + 1, keys.len() as int));
        if let Err(e) = check_key(&batch[i].0) {
            return Err(e);
        }
        i += 1;
    }
    proof {
        assert(keys.subrange(i as int, keys.len() as int) =~= Seq::<Seq<char>>::empty());
    }
    Ok(())
}

proof fn lemma_first_long_base(keys: Seq<Seq<char>>)
    ensures
        first_long(keys) == first_long(keys.subrange(0, keys.len() as int)),
{
    assert(keys.subrange(0, keys.len() as int) =~= keys);
}

/// `insert` of a batch: refused at the first key that is too long, else at
/// the first key that is stored; otherwise one append per entry, in order.
pub fn plan_insert_batch(stream_name: &String, batch: Vec<(String, JsonValue)>, index: &KeyIndex) -> (r: Result<
    Vec<MutationStep>,
    LivenError,
>)
    ensures
        ({
            let b = json_entries_view(batch@);
            let keys = batch_keys(b);
            &&& first_long(keys) < keys.len() ==> (r matches Err(e) && is_too_long_error(e, keys[first_long(keys) as int]))
            &&& first_long(keys) == keys.len() && first_filed(index@, stream_name@, keys) < keys.len() ==> (r matches Err(e)
                && is_query_error(e, batch_key_exists_text(keys[first_filed(index@, stream_name@, keys) as int], stream_name@)))
            &&& first_long(keys) == keys.len() && first_filed(index@, stream_name@, keys) == keys.len() ==> (r matches Ok(steps)
                && steps_view(steps@) == Seq::new(b.len(), |i: int| MutationStepV::Append(b[i].0, b[i].1)))
        }),
{
    let ghost b = json_entries_view(batch@);
    let ghost keys = batch_keys(b);
    proof {
        lemma_json_entries_view_index(batch@);
        lemma_first_long_base(keys);
    }
    if let Err(e) = check_keys(&batch) {
        return Err(e);
    }
    let n = batch.len();
    let mut i: usize = 0;
    assert(keys.subrange(0, keys.len() as int) =~= keys);
    while i < n
        invariant
            i <= n == batch@.len() == keys.len() == b.len(),
            keys == batch_keys(b),
            b == json_entries_view(batch@),
            forall|t: int| 0 <= t < keys.len() ==> #[trigger] keys[t] == batch@[t].0@,
            !(first_long(keys) < keys.len()),
            first_filed(index@, stream_name@, keys) >= i,
            first_filed(index@, stream_name@, keys) == i + first_filed(
                index@,
                stream_name@,
                keys.subrange(i as int, keys.len() as int),
            ),
        decreases n - i,
    {
        let ghost rest = keys.subrange(i as int, keys.len() as int);
        assert(rest[0] == keys[i as int]);
        assert(rest.drop_first() =~= keys.subrange(i + 1, keys.len() as int));
        if is_filed(index, stream_name, &batch[i].0) {
            assert(first_filed(index@, stream_name@, rest) == 0);
            let mut m = crate::text::owned("Key '");
            m.append(batch[i].0.as_str());
            m.append("' already exists in stream '");
            m.append(stream_name.as_str());
            m.append("' (batch insertion aborted)");
            return Err(LivenError::Query(m));
        }
        i += 1;
    }
    proof {
        assert(keys.subrange(n as int, keys.len() as int) =~= Seq::<Seq<char>>::empty());
    }
    let mut rev = take_entries(batch);
    let mut steps: Vec<MutationStep> = Vec::new();
    let mut j: usize = 0;
    while j < n
        invariant
            j <= n == b.len(),
            rev@.len() == n - j,
            forall|t: int| 0 <= t < rev@.len() ==> (#[trigger] rev@[t]).0@ == b[n - 1 - t].0 && rev@[t].1@ == b[n - 1 - t].1,
            steps_view(steps@) == Seq::new(j as nat, |t: int| MutationStepV::Append(b[t].0, b[t].1)),
        decreases n - j,
    {
        let ghost last = rev@[rev@.len() - 1];
        assert(last.0@ == b[j as int].0 && last.1@ == b[j as int].1);
        let ghost before = steps_view(steps@);
        let kv = rev.pop().unwrap();
        assert(kv == last);
        let (k, v) = kv;
        steps.push(MutationStep::Append { key: k, value: v });
        assert(steps_view(steps@) =~= before.push(MutationStepV::Append(b[j as int].0, b[j as int].1)));
        j += 1;
        assert(steps_view(steps@) =~= Seq::new(j as nat, |t: int| MutationStepV::Append(b[t].0, b[t].1)));
    }
    Ok(steps)
}

/// `upsert` of a batch: refused at the first key that is too long;
/// otherwise each entry in order, tombstoning a key that is stored or was
/// written earlier in the batch before appending its value.
pub fn plan_upsert_batch(stream_name: &String, batch: Vec<(String, JsonValue)>, index: &KeyIndex) -> (r: Result<
    Vec<MutationStep>,
    LivenError,
>)
    ensures
        ({
            let b = json_entries_view(batch@);
            let keys = batch_keys(b);
            &&& first_long(keys) < keys.len() ==> (r matches Err(e) && is_too_long_error(e, keys[first_long(keys) as int]))
            &&& first_long(keys) == keys.len() ==> (r matches Ok(steps) && steps_view(steps@) == upsert_steps(
                index@,
                stream_name@,
                b,
            ))
        }),
{
    let ghost b = json_entries_view(batch@);
    proof {
        lemma_json_entries_view_index(batch@);
    }
    if let Err(e) = check_keys(&batch) {
        return Err(e);
    }
    let n = batch.len();
    let mut rev = take_entries(batch);
    let mut steps: Vec<MutationStep> = Vec::new();
    let mut seen: Vec<String> = Vec::new();
    let mut j: usize = 0;
    assert(b.take(0) =~= Seq::<(Seq<char>, JsonV)>::empty());
    while j < n
        invariant
            j <= n == b.len(),
            rev@.len() == n - j,
            forall|t: int| 0 <= t < rev@.len() ==> (#[trigger] rev@[t]).0@ == b[n - 1 - t].0 && rev@[t].1@ == b[n - 1 - t].1,
            strings_view(seen@) == batch_keys(b.take(j as int)),
            steps_view(steps@) == upsert_steps(index@, stream_name@, b.take(j as int)),
        decreases n - j,
    {
        let ghost last = rev@[rev@.len() - 1];
        assert(last.0@ == b[j as int].0 && last.1@ == b[j as int].1);
        let ghost before = steps_view(steps@);
        let kv = rev.pop().unwrap();
        assert(kv == last);
        let (k, v) = kv;
        let present = is_filed(index, stream_name, &k) || stream_known(seen.as_slice(), &k);
        if present {
            steps.push(MutationStep::Tombstone { key: k.clone() });
        }
        let ghost seen0 = seen@;
        seen.push(k.clone());
        assert(strings_view(seen@) =~= strings_view(seen0).push(k@));
        steps.push(MutationStep::Append { key: k, value: v });
        proof {
            let bj = b.take(j + 1);
            assert(batch_keys(bj) =~= batch_keys(b.take(j as int)).push(b[j as int].0));
            assert(bj.drop_last() =~= b.take(j as int));
            assert(bj.last() == b[j as int]);
            assert(strings_view(seen@) =~= batch_keys(bj));
            if present {
                assert(steps_view(steps@) =~= before + seq![MutationStepV::Tombstone(b[j as int].0)] + seq![
                    MutationStepV::Append(b[j as int].0, b[j as int].1),
                ]);
            } else {
                assert(steps_view(steps@) =~= before + Seq::<MutationStepV>::empty() + seq![
                    MutationStepV::Append(b[j as int].0, b[j as int].1),
                ]);
            }
        }
        j += 1;
    }
    assert(b.take(n as int) =~= b);
    Ok(steps)
}

/// `update`: refused when the key is too long or the stream unknown; a
/// stored key is tombstoned and its value rewritten with the update merged
/// in (one row affected); otherwise nothing happens (no row affected).
pub fn plan_update(
    stream_name: &String,
    key: String,
    update: JsonValue,
    index: &KeyIndex,
    streams: &[String],
) -> (r: Result<(Vec<MutationStep>, usize), LivenError>)
    ensures
        is_long(key@) ==> (r matches Err(e) && is_too_long_error(e, key@)),
        !is_long(key@) && !strings_view(streams@).contains(stream_name@) ==> (r matches Err(e) && is_query_error(
            e,
            stream_missing_text(stream_name@),
        )),
        !is_long(key@) && strings_view(streams@).contains(stream_name@) && filed(index@, stream_name@, key@) ==> (r matches Ok(
            (steps, n),
        ) && n == 1 && steps_view(steps@) == seq![MutationStepV::Tombstone(key@), MutationStepV::Rewrite(key@, update@)]),
        !is_long(key@) && strings_view(streams@).contains(stream_name@) && !filed(index@, stream_name@, key@) ==> (r matches Ok(
            (steps, n),
        ) && n == 0 && steps@.len() == 0),
{
    if let Err(e) = check_key(&key) {
        return Err(e);
    }
    if !stream_known(streams, stream_name) {
        return Err(missing_stream(stream_name));
    }
    let mut steps: Vec<MutationStep> = Vec::new();
    if is_filed(index, stream_name, &key) {
        steps.push(MutationStep::Tombstone { key: key.clone() });
        steps.push(MutationStep::Rewrite { key, update });
        assert(steps_view(steps@) =~= seq![MutationStepV::Tombstone(key@), MutationStepV::Rewrite(key@, update@)]);
        return Ok((steps, 1));
    }
    Ok((steps, 0))
}

/// `delete` of a key: refused when the key is too long or the stream
/// unknown; a stored key gets a tombstone (one row affected).
pub fn plan_delete_key(stream_name: &String, key: String, index: &KeyIndex, streams: &[String]) -> (r: Result<
    (Vec<MutationStep>, usize),
    LivenError,
>)
    ensures
        is_long(key@) ==> (r matches Err(e) && is_too_long_error(e, key@)),
        !is_long(key@) && !strings_view(streams@).contains(stream_name@) ==> (r matches Err(e) && is_query_error(
            e,
            stream_missing_text(stream_name@),
        )),
        !is_long(key@) && strings_view(streams@).contains(stream_name@) && filed(index@, stream_name@, key@) ==> (r matches Ok(
            (steps, n),
        ) && n == 1 && steps_view(steps@) == seq![MutationStepV::TombstoneKeys(seq![key@])]),
        !is_long(key@) && strings_view(streams@).contains(stream_name@) && !filed(index@, stream_name@, key@) ==> (r matches Ok(
            (steps, n),
        ) && n == 0 && steps@.len() == 0),
{
    if let Err(e) = check_key(&key) {
        return Err(e);
    }
    if !stream_known(streams, stream_name) {
        return Err(missing_stream(stream_name));
    }
    let mut steps: Vec<MutationStep> = Vec::new();
    if is_filed(index, stream_name, &key) {
        let mut keys: Vec<String> = Vec::new();
        keys.push(key);
        assert(strings_view(keys@) =~= seq![key@]);
        steps.push(MutationStep::TombstoneKeys { keys });
        assert(steps_view(steps@) =~= seq![MutationStepV::TombstoneKeys(seq![key@])]);
        return Ok((steps, 1));
    }
    Ok((steps, 0))
}

/// Whether `ks` lists the keys that the index holds for the stream: each
/// once, in the index's byte order of the compound keys.
pub open spec fn is_key_listing(m: Map<Seq<char>, LogPointer>, stream: Seq<char>, ks: Seq<Seq<char>>) -> bool {
    &&& forall|k: Seq<char>| filed(m, stream, k) <==> ks.contains(k)
    &&& forall|i: int, j: int|
        0 <= i < j < ks.len() ==> crate::executor::bytes_lt(
            encode_utf8(compound(stream, #[trigger] ks[i])),
            encode_utf8(compound(stream, #[trigger] ks[j])),
        )
}

/// `empty` and `drop`: refused when the stream is unknown; otherwise all of
/// the stream's keys get tombstones in one group commit, and each of them
/// counts as an affected row.
pub fn plan_clear(stream_name: &String, index: &KeyIndex, streams: &[String]) -> (r: Result<
    (Vec<MutationStep>, usize),
    LivenError,
>)
    ensures
        !strings_view(streams@).contains(stream_name@) ==> (r matches Err(e) && is_query_error(
            e,
            stream_missing_text(stream_name@),
        )),
        strings_view(streams@).contains(stream_name@) ==> (r matches Ok((steps, n)) && (n == 0 ==> steps@.len() == 0
            && forall|k: Seq<char>| !filed(index@, stream_name@, k)) && (n > 0 ==> steps@.len() == 1 && (
        steps@[0] matches MutationStep::TombstoneKeys { keys } && keys@.len() == n && is_key_listing(
            index@,
            stream_name@,
            strings_view(keys@),
        )))),
{
    if !stream_known(streams, stream_name) {
        return Err(missing_stream(stream_name));
    }
    let keys = index.list_keys(stream_name.as_str());
    let n = keys.len();
    let mut steps: Vec<MutationStep> = Vec::new();
    if n == 0 {
        proof {
            assert forall|k: Seq<char>| !filed(index@, stream_name@, k) by {
                if filed(index@, stream_name@, k) {
                    assert(strings_view(keys@).contains(k));
                }
            }
        }
        return Ok((steps, 0));
    }
    steps.push(MutationStep::TombstoneKeys { keys });
    Ok((steps, n))
}

/// The text of a write's status: `{"status": "success", "affected_rows": n}`.
pub open spec fn status_text(affected_rows: nat) -> Seq<char> {
    "{\"status\": \"success\", \"affected_rows\": "@ + nat_text(affected_rows) + "}"@
}

/// The record that answers `update`, `delete`, `empty`, `drop` and the
/// pipeline forms of update and delete.
pub fn status_record(stream_name: String, affected_rows: usize, timestamp: i64) -> (r: crate::types::Record)
    ensures
        r.sequence_id == 1,
        r.timestamp == timestamp,
        r.type_tag == 5,
        r.flags == 1,
        r.stream_name@ == stream_name@,
        r.key@ == seq![115u8, 116u8, 97u8, 116u8, 117u8, 115u8],
        r.value matches crate::types::DataValue::String(t) && t@ == status_text(affected_rows as nat),
{
    let mut t = crate::text::owned("{\"status\": \"success\", \"affected_rows\": ");
    t.append(crate::parser::nat_text_exec(affected_rows as u64).as_str());
    t.append("}");
    proof {
        reveal_strlit("status");
        vstd::string::is_ascii_spec_bytes("status");
        assert(vstd::string::is_ascii("status"));
        assert("status".spec_bytes() =~= seq![115u8, 116u8, 97u8, 116u8, 117u8, 115u8]);
    }
    crate::types::Record {
        sequence_id: 1,
        timestamp,
        type_tag: 5,
        flags: 1,
        stream_name,
        key: crate::storage::key::StreamKey::from_str_truncated("status"),
        value: crate::types::DataValue::String(t),
    }
}

/// The stream of a pipeline's leading `from` stage, if it has one.
pub open spec fn leading_stream(stages: Seq<crate::types::PipelineStage>) -> Option<Seq<char>> {
    if stages.len() > 0 && stages[0] is From {
        Some(stages[0]->From_stream_name@)
    } else {
        None
    }
}

/// A pipeline that reads a stream refuses a stream that is not known (only
/// a leading `from` stage is checked).
pub fn check_pipeline_stream(stages: &[crate::types::PipelineStage], streams: &[String]) -> (r: Result<(), LivenError>)
    ensures
        (leading_stream(stages@) matches Some(name) && !strings_view(streams@).contains(name)) ==> (r matches Err(e)
            && is_query_error(e, stream_missing_text(leading_stream(stages@)->0))),
        !(leading_stream(stages@) matches Some(name) && !strings_view(streams@).contains(name)) ==> r is Ok,
{
    if stages.len() > 0 {
        if let crate::types::PipelineStage::From { stream_name } = &stages[0] {
            if !stream_known(streams, stream_name) {
                return Err(missing_stream(stream_name));
            }
        }
    }
    Ok(())
}

/// The stream that a pipeline update or delete writes to: its leading
/// `from` stage's, which must be known.
pub fn pipeline_target(stages: &[crate::types::PipelineStage], streams: &[String]) -> (r: Result<String, LivenError>)
    ensures
        leading_stream(stages@) is None ==> (r matches Err(e) && is_query_error(
            e,
            "Pipeline query must start with a from() stage"@,
        )),
        (leading_stream(stages@) matches Some(name) && !strings_view(streams@).contains(name)) ==> (r matches Err(e)
            && is_query_error(e, stream_missing_text(leading_stream(stages@)->0))),
        (leading_stream(stages@) matches Some(name) && strings_view(streams@).contains(name)) ==> (r matches Ok(s)
            && s@ == leading_stream(stages@)->0),
{
    if stages.len() > 0 {
        if let crate::types::PipelineStage::From { stream_name } = &stages[0] {
            if !stream_known(streams, stream_name) {
                return Err(missing_stream(stream_name));
            }
            return Ok(stream_name.clone());
        }
    }
    Err(LivenError::Query(crate::text::owned("Pipeline query must start with a from() stage")))
}

/// The keys with later repeats left out, in order of first appearance.
pub open spec fn first_occurrences(s: Seq<Seq<char>>) -> Seq<Seq<char>>
    decreases s.len(),
{
    if s.len() == 0 {
        Seq::empty()
    } else if s.drop_last().contains(s.last()) {
        first_occurrences(s.drop_last())
    } else {
        first_occurrences(s.drop_last()).push(s.last())
    }
}

proof fn lemma_push_contains(p: Seq<Seq<char>>, x: Seq<char>, k: Seq<char>)
    ensures
        p.push(x).contains(k) <==> (p.contains(k) || k == x),
{
    if p.contains(k) {
        let i = choose|i: int| 0 <= i < p.len() && p[i] == k;
        assert(p.push(x)[i] == k);
    }
    if k == x {
        assert(p.push(x)[p.len() as int] == k);
    }
    if p.push(x).contains(k) {
        let i = choose|i: int| 0 <= i < p.push(x).len() && p.push(x)[i] == k;
        if i < p.len() {
            assert(p[i] == k);
        }
    }
}

proof fn lemma_first_occurrences_contains(s: Seq<Seq<char>>, k: Seq<char>)
    ensures
        first_occurrences(s).contains(k) <==> s.contains(k),
    decreases s.len(),
{
    if s.len() > 0 {
        let p = s.drop_last();
        let x = s.last();
        assert(s =~= p.push(x));
        lemma_first_occurrences_contains(p, k);
        lemma_push_contains(p, x, k);
        if !p.contains(x) {
            lemma_push_contains(first_occurrences(p), x, k);
        }
    }
}

/// The distinct keys, in order of first appearance (the targets of a pipeline delete).
pub fn dedup_keys(keys: Vec<String>) -> (r: Vec<String>)
    ensures
        strings_view(r@) == first_occurrences(strings_view(keys@)),
{
    let ghost ks = strings_view(keys@);
    let n = keys.len();
    let mut out: Vec<String> = Vec::new();
    let mut i: usize = 0;
    assert(ks.take(0) =~= Seq::<Seq<char>>::empty());
    while i < n
        invariant
            i <= n == keys@.len() == ks.len(),
            ks == strings_view(keys@),
            strings_view(out@) == first_occurrences(ks.take(i as int)),
        decreases n - i,
    {
        let ghost pre = ks.take(i as int);
        let k = keys[i].clone();
        proof {
            lemma_first_occurrences_contains(pre, k@);
        }
        let seen = stream_known(out.as_slice(), &k);
        if !seen {
            out.push(k);
        }
        proof {
            let p1 = ks.take(i + 1);
            assert(p1.drop_last() =~= pre);
            assert(p1.last() == k@);
            assert(strings_view(out@) =~= first_occurrences(p1));
        }
        i += 1;
    }
    assert(ks.take(n as int) =~= ks);
    out
}

/// An object's entries with each given entry set in turn (a later entry for
/// a key replacing an earlier value).
pub open spec fn set_entries(m: Seq<(Seq<char>, JsonV)>, entries: Seq<(Seq<char>, JsonV)>) -> Seq<(Seq<char>, JsonV)>
    decreases entries.len(),
{
    if entries.len() == 0 {
        m
    } else {
        crate::query_parser::obj_insert(set_entries(m, entries.drop_last()), entries.last().0, entries.last().1)
    }
}

/// A value with an update merged in: when both are objects, the update's
/// fields are set on the value; otherwise the update replaces the value.
pub open spec fn merged(current: JsonV, update: JsonV) -> JsonV {
    match (current, update) {
        (JsonV::Object(m), JsonV::Object(u)) => JsonV::Object(set_entries(m, u)),
        _ => update,
    }
}

/// Merges an update into a record's current value (see [`merged`]).
pub fn merge_update(current: JsonValue, update: JsonValue) -> (r: JsonValue)
    ensures
        r@ == merged(current@, update@),
{
    match current {
        JsonValue::Object(mut m) => match update {
            JsonValue::Object(u) => {
                let ghost uv = json_entries_view(u@);
                let ghost mv0 = json_entries_view(m@);
                proof {
                    lemma_json_entries_view_index(u@);
                }
                let n = u.len();
                let mut rev = take_entries(u);
                let mut i: usize = 0;
                assert(uv.take(0) =~= Seq::<(Seq<char>, JsonV)>::empty());
                while i < n
                    invariant
                        i <= n == uv.len(),
                        rev@.len() == n - i,
                        forall|t: int| 0 <= t < rev@.len() ==> (#[trigger] rev@[t]).0@ == uv[n - 1 - t].0 && rev@[t].1@ == uv[n - 1 - t].1,
                        json_entries_view(m@) == set_entries(mv0, uv.take(i as int)),
                    decreases n - i,
                {
                    let ghost last = rev@[rev@.len() - 1];
                    assert(last.0@ == uv[i as int].0 && last.1@ == uv[i as int].1);
                    let kv = rev.pop().unwrap();
                    assert(kv == last);
                    let (k, v) = kv;
                    crate::query_parser::obj_insert_exec(&mut m, k, v);
                    proof {
                        assert(uv.take(i + 1).drop_last() =~= uv.take(i as int));
                        assert(uv.take(i + 1).last() == uv[i as int]);
                    }
                    i += 1;
                }
                assert(uv.take(n as int) =~= uv);
                JsonValue::Object(m)
            },
            other => other,
        },
        _ => update,
    }
}

/// The stored value of a JSON value: numbers become integers when they
/// fit `i64`, unsigned integers otherwise, floats keep their text (an
/// infinity or NaN, which JSON cannot hold, becomes null); arrays convert
/// item by item; an object is stored as its compact JSON text.
pub open spec fn json_data(v: JsonV) -> DataValueV
    decreases v, 0int,
{
    match v {
        JsonV::Null => DataValueV::Null,
        JsonV::Bool(b) => DataValueV::Bool(b),
        JsonV::Int(i) => DataValueV::Int(i),
        JsonV::UInt(u) => if u <= i64::MAX {
            DataValueV::Int(u as i64)
        } else {
            DataValueV::UInt(u)
        },
        JsonV::Float(t) => if crate::query_parser::is_non_finite_word(t) {
            DataValueV::Null
        } else {
            DataValueV::Float(t)
        },
        JsonV::Str(t) => DataValueV::Str(t),
        JsonV::Array(items) => DataValueV::Array(json_data_items(items)),
        JsonV::Object(es) => DataValueV::Str(crate::json_doc::json_text_of(JsonV::Object(es))),
    }
}

/// The stored values of JSON values, in order.
pub open spec fn json_data_items(items: Seq<JsonV>) -> Seq<DataValueV>
    decreases items, 1int,
{
    if items.len() == 0 {
        Seq::empty()
    } else {
        json_data_items(items.drop_last()).push(json_data(items.last()))
    }
}

/// Converts a JSON value to the value that is stored (see [`json_data`]).
pub fn json_to_datavalue(v: &JsonValue) -> (r: DataValue)
    ensures
        r@ == json_data(v@),
    decreases v, 0int,
{
    match v {
        JsonValue::Null => DataValue::Null,
        JsonValue::Bool(b) => DataValue::Bool(*b),
        JsonValue::Int(i) => DataValue::Int(*i),
        JsonValue::UInt(u) => if *u <= i64::MAX as u64 {
            DataValue::Int(*u as i64)
        } else {
            DataValue::UInt(*u)
        },
        JsonValue::Float(t) => {
            let tc = crate::text::chars_of(t.as_str());
            if crate::query_parser::is_non_finite_word_exec(tc.as_slice()) {
                DataValue::Null
            } else {
                DataValue::Float(t.clone())
            }
        },
        JsonValue::String(t) => DataValue::String(t.clone()),
        JsonValue::Array(items) => {
            let out = json_items_to_data(items);
            DataValue::Array(out)
        },
        JsonValue::Object(_) => {
            let mut text = String::new();
            crate::query_parser::push_json_text(&mut text, v);
            DataValue::String(text)
        },
    }
}

fn json_items_to_data(items: &Vec<JsonValue>) -> (r: Vec<DataValue>)
    ensures
        crate::types::data_values_view(r@) == json_data_items(json_values_view(items@)),
    decreases items, 0int,
{
    let ghost iv = json_values_view(items@);
    proof {
        crate::query_parser::lemma_json_values_view_index(items@);
        assert(iv.take(0) =~= Seq::<JsonV>::empty());
    }
    let mut out: Vec<DataValue> = Vec::new();
    let mut i: usize = 0;
    while i < items.len()
        invariant
            i <= items@.len(),
            iv == json_values_view(items@),
            iv.len() == items@.len(),
            forall|k: int| 0 <= k < items@.len() ==> #[trigger] iv[k] == items@[k]@,
            crate::types::data_values_view(out@) == json_data_items(iv.take(i as int)),
        decreases items.len() - i,
    {
        let d = json_to_datavalue(&items[i]);
        let ghost before = out@;
        out.push(d);
        proof {
            let t = iv.take(i + 1);
            assert(t.drop_last() =~= iv.take(i as int));
            assert(t.last() == items@[i as int]@);
            crate::types::lemma_data_values_view_push(before, d);
        }
        i += 1;
    }
    assert(iv.take(iv.len() as int) =~= iv);
    out
}

} // verus!
