//! Key-value API requests: their limits, and the decisions of a
//! compare-and-set transaction (which key to read, whether a check passes, which
//! mutation a request asks for).

use vstd::prelude::*;
use vstd::string::StringExecFns;

verus! {

/// Most keys that one request may name.
pub const MAX_KEYS_PER_OP: usize = 1000;
/// Longest key, in bytes.
pub const MAX_KEY_SIZE: usize = 4096;
/// Longest value, in bytes.
pub const MAX_VALUE_SIZE: usize = 80000;

/// What a compare-and-set requires of a key's current value.
#[derive(Debug, Clone, Copy, PartialEq, Eq, Hash)]
pub enum TriStateCheck<T> {
    /// The key must have no value.
    Absent,
    /// Anything goes; the key is not read.
    Any,
    /// The key must hold exactly this value.
    Value(T),
}

/// What a compare-and-set does to a key.
#[derive(Debug, Clone, Copy, PartialEq, Eq, Hash)]
pub enum TriStateSet<T> {
    Delete,
    Preserve,
    Value(T),
    /// Writes the value under the key followed by the commit's versionstamp.
    WithVersionstampedKey { value: T },
}

/// Options of a prefix listing.
#[derive(Debug, Clone)]
pub struct PrefixListOptions {
    pub reverse: bool,
    pub want_value: bool,
    pub limit: u32,
    pub cursor: Option<String>,
}

/// The outcome of a committed compare-and-set.
#[derive(Debug, Clone)]
pub struct CompareAndSetResult {
    pub versionstamp: Option<String>,
}

/// A compare-and-set over several keys of a namespace.
pub struct KvCompareAndSetManyRequest<T> {
    pub namespace: String,
    pub keys: Vec<KvCompareAndSetManyRequestKey<T>>,
}

/// One key of a compare-and-set.
pub struct KvCompareAndSetManyRequestKey<T> {
    pub key: String,
    pub check: TriStateCheck<T>,
    pub set: TriStateSet<T>,
}

/// Why a key-value request is refused before it is sent.
#[derive(Debug, Clone, Copy, PartialEq, Eq, Structural)]
pub enum KvRequestError {
    TooManyKeys,
    KeyTooLarge,
    CheckValueTooLarge,
    SetValueTooLarge,
    PrefixTooLarge,
}

/// The byte length of a string, as `str::len` gives it.
pub open spec fn byte_len(s: Seq<char>) -> nat {
    vstd::utf8::encode_utf8(s).len()
}

/// The first key, in order, that is longer than the limit.
pub open spec fn first_long_key(keys: Seq<Seq<char>>) -> Option<nat>
    decreases keys.len(),
{
    if keys.len() == 0 {
        None
    } else {
        match first_long_key(keys.drop_last()) {
            Some(i) => Some(i),
            None => if byte_len(keys.last()) > MAX_KEY_SIZE {
                Some((keys.len() - 1) as nat)
            } else {
                None
            },
        }
    }
}

/// The check that a get-many request passes before it is sent.
pub open spec fn spec_check_get_many(keys: Seq<Seq<char>>) -> Result<(), KvRequestError> {
    if keys.len() > MAX_KEYS_PER_OP {
        Err(KvRequestError::TooManyKeys)
    } else if first_long_key(keys) is Some {
        Err(KvRequestError::KeyTooLarge)
    } else {
        Ok(())
    }
}

/// Checks a get-many request: at most `MAX_KEYS_PER_OP` keys, none longer than
/// `MAX_KEY_SIZE` bytes.
pub fn check_get_many_keys(keys: &Vec<String>) -> (res: Result<(), KvRequestError>)
    ensures
        res == spec_check_get_many(keys@.map_values(|k: String| k@)),
{
    let ghost kv = keys@.map_values(|k: String| k@);
    if keys.len() > MAX_KEYS_PER_OP {
        return Err(KvRequestError::TooManyKeys);
    }
    let mut i: usize = 0;
    while i < keys.len()
        invariant
            i <= keys.len(),
            keys.len() <= MAX_KEYS_PER_OP,
            kv == keys@.map_values(|k: String| k@),
            first_long_key(kv.take(i as int)) is None,
        decreases keys.len() - i,
    {
        proof {
            assert(kv.take(i + 1).drop_last() == kv.take(i as int));
            assert(kv.take(i + 1).last() == keys@[i as int]@);
        }
        if keys[i].as_str().as_bytes().len() > MAX_KEY_SIZE {
            proof {
                assert(byte_len(kv.take(i + 1).last()) > MAX_KEY_SIZE);
                assert(first_long_key(kv.take(i + 1)) is Some);
                lemma_first_long_key_sticks(kv, i + 1);
            }
            return Err(KvRequestError::KeyTooLarge);
        }
        i += 1;
    }
    proof {
        assert(kv.take(keys.len() as int) == kv);
    }
    Ok(())
}

proof fn lemma_first_long_key_sticks(keys: Seq<Seq<char>>, n: int)
    requires
        0 <= n <= keys.len(),
        first_long_key(keys.take(n)) is Some,
    ensures
        first_long_key(keys) is Some,
    decreases keys.len(),
{
    if n == keys.len() {
        assert(keys.take(n) == keys);
    } else {
        assert(keys.drop_last().take(n) == keys.take(n));
        lemma_first_long_key_sticks(keys.drop_last(), n);
    }
}

/// The view of a compare-and-set key: the key's text, check and set over byte
/// sequences.
pub open spec fn cas_key_view(k: KvCompareAndSetManyRequestKey<Vec<u8>>) -> (Seq<char>, TriStateCheck<Seq<u8>>, TriStateSet<Seq<u8>>) {
    (k.key@, match k.check {
        TriStateCheck::Absent => TriStateCheck::Absent,
        TriStateCheck::Any => TriStateCheck::Any,
        TriStateCheck::Value(v) => TriStateCheck::Value(v@),
    }, match k.set {
        TriStateSet::Delete => TriStateSet::Delete,
        TriStateSet::Preserve => TriStateSet::Preserve,
        TriStateSet::Value(v) => TriStateSet::Value(v@),
        TriStateSet::WithVersionstampedKey { value } => TriStateSet::WithVersionstampedKey { value: value@ },
    })
}

/// The first problem of one compare-and-set key, if any: its key's length,
/// then its checked value's, then its written value's.
pub open spec fn cas_key_problem(k: (Seq<char>, TriStateCheck<Seq<u8>>, TriStateSet<Seq<u8>>)) -> Option<KvRequestError> {
    if byte_len(k.0) > MAX_KEY_SIZE {
        Some(KvRequestError::KeyTooLarge)
    } else if k.1 matches TriStateCheck::Value(x) && x.len() > MAX_VALUE_SIZE {
        Some(KvRequestError::CheckValueTooLarge)
    } else if k.2 matches TriStateSet::Value(x) && x.len() > MAX_VALUE_SIZE {
        Some(KvRequestError::SetValueTooLarge)
    } else {
        None
    }
}

/// The first problem among the keys, in order.
pub open spec fn first_cas_problem(keys: Seq<(Seq<char>, TriStateCheck<Seq<u8>>, TriStateSet<Seq<u8>>)>) -> Option<KvRequestError>
    decreases keys.len(),
{
    if keys.len() == 0 {
        None
    } else {
        match first_cas_problem(keys.drop_last()) {
            Some(e) => Some(e),
            None => cas_key_problem(keys.last()),
        }
    }
}

/// The check that a compare-and-set request passes before it is sent.
pub open spec fn spec_check_cas(keys: Seq<(Seq<char>, TriStateCheck<Seq<u8>>, TriStateSet<Seq<u8>>)>) -> Result<(), KvRequestError> {
    if keys.len() > MAX_KEYS_PER_OP {
        Err(KvRequestError::TooManyKeys)
    } else {
        match first_cas_problem(keys) {
            Some(e) => Err(e),
            None => Ok(()),
        }
    }
}

/// Checks a compare-and-set request: at most `MAX_KEYS_PER_OP` keys; for each
/// key in order, the key at most `MAX_KEY_SIZE` bytes and a checked or written
/// value at most `MAX_VALUE_SIZE` bytes (a value written under a versionstamped
/// key is not limited).
pub fn check_compare_and_set(req: &KvCompareAndSetManyRequest<Vec<u8>>) -> (res: Result<(), KvRequestError>)
    ensures
        res == spec_check_cas(req.keys@.map_values(|k: KvCompareAndSetManyRequestKey<Vec<u8>>| cas_key_view(k))),
{
    let ghost kv = req.keys@.map_values(|k: KvCompareAndSetManyRequestKey<Vec<u8>>| cas_key_view(k));
    if req.keys.len() > MAX_KEYS_PER_OP {
        return Err(KvRequestError::TooManyKeys);
    }
    let mut i: usize = 0;
    while i < req.keys.len()
        invariant
            i <= req.keys.len(),
            req.keys.len() <= MAX_KEYS_PER_OP,
            kv == req.keys@.map_values(|k: KvCompareAndSetManyRequestKey<Vec<u8>>| cas_key_view(k)),
            first_cas_problem(kv.take(i as int)) is None,
        decreases req.keys.len() - i,
    {
        proof {
            assert(kv.take(i + 1).drop_last() == kv.take(i as int));
            assert(kv.take(i + 1).last() == cas_key_view(req.keys@[i as int]));
        }
        let k = &req.keys[i];
        let problem = if k.key.as_str().as_bytes().len() > MAX_KEY_SIZE {
            Some(KvRequestError::KeyTooLarge)
        } else if match &k.check {
            TriStateCheck::Value(x) => x.len() > MAX_VALUE_SIZE,
            _ => false,
        } {
            Some(KvRequestError::CheckValueTooLarge)
        } else if match &k.set {
            TriStateSet::Value(x) => x.len() > MAX_VALUE_SIZE,
            _ => false,
        } {
            Some(KvRequestError::SetValueTooLarge)
        } else {
            None
        };
        if let Some(e) = problem {
            proof {
                lemma_first_cas_problem_sticks(kv, i + 1);
            }
            return Err(e);
        }
        i += 1;
    }
    proof {
        assert(kv.take(req.keys.len() as int) == kv);
    }
    Ok(())
}

proof fn lemma_first_cas_problem_sticks(keys: Seq<(Seq<char>, TriStateCheck<Seq<u8>>, TriStateSet<Seq<u8>>)>, n: int)
    requires
        0 <= n <= keys.len(),
        first_cas_problem(keys.take(n)) is Some,
    ensures
        first_cas_problem(keys) == first_cas_problem(keys.take(n)),
    decreases keys.len(),
{
    if n == keys.len() {
        assert(keys.take(n) == keys);
    } else {
        assert(keys.drop_last().take(n) == keys.take(n));
        lemma_first_cas_problem_sticks(keys.drop_last(), n);
    }
}

/// Checks the prefix of a listing: at most `MAX_KEY_SIZE` bytes.
pub fn check_prefix_list(prefix: &str) -> (res: Result<(), KvRequestError>)
    ensures
        res == if byte_len(prefix@) > MAX_KEY_SIZE {
            Err::<(), KvRequestError>(KvRequestError::PrefixTooLarge)
        } else {
            Ok(())
        },
{
    if prefix.as_bytes().len() > MAX_KEY_SIZE {
        Err(KvRequestError::PrefixTooLarge)
    } else {
        Ok(())
    }
}

/// Whether a compare-and-set must read the key's current value.
pub open spec fn spec_needs_read<T>(check: TriStateCheck<T>) -> bool {
    !(check is Any)
}

/// Whether a check needs the key's current value: every check but `Any`.
pub fn needs_read<T>(check: &TriStateCheck<T>) -> (res: bool)
    ensures
        res == spec_needs_read(*check),
{
    match check {
        TriStateCheck::Any => false,
        _ => true,
    }
}

/// Whether a check passes on the key's current value.
pub open spec fn spec_check_passes(check: TriStateCheck<Seq<u8>>, current: Option<Seq<u8>>) -> bool {
    match check {
        TriStateCheck::Any => true,
        TriStateCheck::Absent => current is None,
        TriStateCheck::Value(x) => current == Some(x),
    }
}

/// The view of a check over byte vectors.
pub open spec fn check_view(c: TriStateCheck<Vec<u8>>) -> TriStateCheck<Seq<u8>> {
    match c {
        TriStateCheck::Absent => TriStateCheck::Absent,
        TriStateCheck::Any => TriStateCheck::Any,
        TriStateCheck::Value(v) => TriStateCheck::Value(v@),
    }
}

/// Whether `check` passes on the current value of its key: `Absent` when there
/// is none, `Value(x)` when it is exactly `x`, `Any` always.
pub fn check_passes(check: &TriStateCheck<Vec<u8>>, current: Option<&Vec<u8>>) -> (res: bool)
    ensures
        res == spec_check_passes(check_view(*check), match current {
            Some(v) => Some(v@),
            None => None,
        }),
{
    match check {
        TriStateCheck::Any => true,
        TriStateCheck::Absent => current.is_none(),
        TriStateCheck::Value(x) => match current {
            None => false,
            Some(v) => bytes_eq(v.as_slice(), x.as_slice()),
        },
    }
}

/// Whether two byte slices are equal.
pub fn bytes_eq(a: &[u8], b: &[u8]) -> (res: bool)
    ensures
        res == (a@ == b@),
{
    if a.len() != b.len() {
        return false;
    }
    let mut i: usize = 0;
    while i < a.len()
        invariant
            a.len() == b.len(),
            i <= a.len(),
            forall|j: int| 0 <= j < i ==> a@[j] == b@[j],
        decreases a.len() - i,
    {
        if a[i] != b[i] {
            return false;
        }
        i += 1;
    }
    assert(a@ =~= b@);
    true
}

/// The little-endian bytes of a 32-bit number.
pub open spec fn le_bytes_u32(n: u32) -> Seq<u8> {
    seq![(n % 256) as u8, ((n / 256) % 256) as u8, ((n / 65536) % 256) as u8, (n / 16777216) as u8]
}

/// The key that a versionstamped write targets: the key, ten placeholder bytes
/// for the versionstamp, and the key's length (modulo 2^32) as four
/// little-endian bytes, which tell the database where the placeholder starts.
pub open spec fn spec_versionstamped_key(key: Seq<u8>) -> Seq<u8> {
    key + Seq::new(10, |i: int| 0u8) + le_bytes_u32((key.len() % 0x1_0000_0000) as u32)
}

/// Builds the target key of a versionstamped write.
pub fn versionstamped_key(key: &[u8]) -> (res: Vec<u8>)
    ensures
        res@ == spec_versionstamped_key(key@),
{
    let mut out: Vec<u8> = Vec::new();
    let mut i: usize = 0;
    while i < key.len()
        invariant
            i <= key.len(),
            out@ == key@.take(i as int),
        decreases key.len() - i,
    {
        out.push(key[i]);
        assert(key@.take(i + 1) == key@.take(i as int).push(key@[i as int]));
        i += 1;
    }
    let mut z: usize = 0;
    while z < 10
        invariant
            z <= 10,
            out@ == key@ + Seq::new(z as nat, |i: int| 0u8),
        decreases 10 - z,
    {
        out.push(0);
        assert(key@ + Seq::new((z + 1) as nat, |i: int| 0u8) =~= (key@ + Seq::new(z as nat, |i: int| 0u8)).push(0u8));
        z += 1;
    }
    let n: u32 = (key.len() as u64 % 0x1_0000_0000u64) as u32;
    out.push((n % 256) as u8);
    out.push(((n / 256) % 256) as u8);
    out.push(((n / 65536) % 256) as u8);
    out.push((n / 16777216) as u8);
    assert(out@ =~= spec_versionstamped_key(key@));
    out
}

/// A mutation of a compare-and-set transaction.
#[derive(Debug, Clone, PartialEq, Eq)]
pub enum KvMutation {
    /// Nothing to write.
    Keep,
    /// Clear the key.
    Clear(Vec<u8>),
    /// Write the value under the key.
    Put(Vec<u8>, Vec<u8>),
    /// Write the value under the versionstamped key built from the key.
    SetVersionstampedKey(Vec<u8>, Vec<u8>),
}

/// The mutation that a set asks for on the packed key.
pub open spec fn spec_mutation(set: TriStateSet<Seq<u8>>, key: Seq<u8>) -> (u8, Seq<u8>, Seq<u8>) {
    match set {
        TriStateSet::Preserve => (0, Seq::empty(), Seq::empty()),
        TriStateSet::Delete => (1, key, Seq::empty()),
        TriStateSet::Value(x) => (2, key, x),
        TriStateSet::WithVersionstampedKey { value } => (3, spec_versionstamped_key(key), value),
    }
}

/// The view of a mutation: its kind (0 keep, 1 clear, 2 set, 3 versionstamped
/// set), its target key and its value.
pub open spec fn mutation_view(m: KvMutation) -> (u8, Seq<u8>, Seq<u8>) {
    match m {
        KvMutation::Keep => (0, Seq::empty(), Seq::empty()),
        KvMutation::Clear(k) => (1, k@, Seq::empty()),
        KvMutation::Put(k, v) => (2, k@, v@),
        KvMutation::SetVersionstampedKey(k, v) => (3, k@, v@),
    }
}

/// The view of a set over byte vectors.
pub open spec fn set_view(s: TriStateSet<Vec<u8>>) -> TriStateSet<Seq<u8>> {
    match s {
        TriStateSet::Delete => TriStateSet::Delete,
        TriStateSet::Preserve => TriStateSet::Preserve,
        TriStateSet::Value(v) => TriStateSet::Value(v@),
        TriStateSet::WithVersionstampedKey { value } => TriStateSet::WithVersionstampedKey { value: value@ },
    }
}

/// The mutation that `set` asks for on the packed key `key`: `Preserve` keeps,
/// `Delete` clears, `Value` writes, and `WithVersionstampedKey` writes under
/// the versionstamped key.
pub fn mutation_for(set: &TriStateSet<Vec<u8>>, key: &Vec<u8>) -> (res: KvMutation)
    ensures
        mutation_view(res) == spec_mutation(set_view(*set), key@),
{
    match set {
        TriStateSet::Preserve => KvMutation::Keep,
        TriStateSet::Delete => KvMutation::Clear(key.clone()),
        TriStateSet::Value(x) => KvMutation::Put(key.clone(), x.clone()),
        TriStateSet::WithVersionstampedKey { value } => KvMutation::SetVersionstampedKey(
            versionstamped_key(key.as_slice()),
            value.clone(),
        ),
    }
}

/// The key range of a prefix listing over packed keys: from the prefix key to
/// the prefix key followed by 0xFF; a cursor key moves the end (when listing in
/// reverse) or moves the start just past the cursor (otherwise).
pub open spec fn spec_prefix_range(start: Seq<u8>, cursor: Option<Seq<u8>>, reverse: bool) -> (Seq<u8>, Seq<u8>) {
    let end = start.push(0xFFu8);
    match cursor {
        Some(c) => if reverse {
            (start, c)
        } else {
            (c.push(0u8), end)
        },
        None => (start, end),
    }
}

/// The range of a prefix listing, given the packed prefix and cursor keys.
pub fn prefix_list_range(start: Vec<u8>, cursor: Option<Vec<u8>>, reverse: bool) -> (res: (Vec<u8>, Vec<u8>))
    ensures
        (res.0@, res.1@) == spec_prefix_range(start@, match cursor {
            Some(c) => Some(c@),
            None => None,
        }, reverse),
{
    let mut end = start.clone();
    end.push(0xFF);
    match cursor {
        Some(mut c) => {
            if reverse {
                (start, c)
            } else {
                c.push(0);
                (c, end)
            }
        },
        None => (start, end),
    }
}

/// The answer to a compare-and-set: whether it committed, and what.
#[derive(Debug, Clone)]
pub struct KvCompareAndSetManyResponse {
    pub ok: bool,
    pub committed: Option<CompareAndSetResult>,
}

/// Where a compare-and-set transaction stands.
#[derive(Debug, Clone, Copy, PartialEq, Eq, Structural)]
pub enum CasPhase {
    /// About to handle the key at this index; all keys before it were checked
    /// and written.
    AtKey(usize),
    /// Waiting for the current value of the key at this index.
    Reading(usize),
    /// Waiting for the outcome of the commit.
    Committing,
    /// The answer was given.
    Done,
}

/// The state of a compare-and-set transaction: its phase, and whether a write
/// of the current attempt asks for the commit's versionstamp.
#[derive(Debug, Clone, Copy, PartialEq, Eq, Structural)]
pub struct CasState {
    pub phase: CasPhase,
    pub has_versionstamp: bool,
}

/// What the transaction reports back to the machine.
#[derive(Debug, Clone)]
pub enum CasEvent {
    /// Go on: at the start, after a write, and after the transaction was reset.
    Proceed,
    /// The current value of the key that was asked for.
    Value(Option<Vec<u8>>),
    /// The commit succeeded, with the versionstamp when one was asked for.
    Committed(Option<Vec<u8>>),
    /// The commit failed with a retryable conflict.
    Conflict,
    /// The commit failed with an error that cannot be retried.
    Failed,
}

/// What the machine asks the transaction to do next.
#[derive(Debug, Clone)]
pub enum CasAction {
    /// Read the current value of the key at this index.
    Read(usize),
    /// Apply this mutation, then proceed.
    Write(KvMutation),
    /// Commit, fetching the versionstamp when asked.
    Commit { want_versionstamp: bool },
    /// Reset the transaction after a conflict, then proceed.
    Reset,
    /// Answer the request.
    Respond(KvCompareAndSetManyResponse),
    /// End the request with an error: the commit failed for good, or it
    /// succeeded but the versionstamp that was asked for did not come.
    Fail,
    /// The event does not fit the phase; nothing to do.
    Ignore,
}

/// The state in which a compare-and-set starts.
pub open spec fn cas_initial() -> CasState {
    CasState { phase: CasPhase::AtKey(0), has_versionstamp: false }
}

/// The state after the key at `i` was written.
pub open spec fn cas_after_write(st: CasState, i: int, set: TriStateSet<Vec<u8>>) -> CasState {
    CasState {
        phase: CasPhase::AtKey((i + 1) as usize),
        has_versionstamp: st.has_versionstamp || set is WithVersionstampedKey,
    }
}

/// Whether an action writes what the set of a key asks for on its packed key.
pub open spec fn writes_set_of(act: CasAction, set: TriStateSet<Vec<u8>>, packed: Vec<u8>) -> bool {
    act matches CasAction::Write(m) && mutation_view(m) == spec_mutation(set_view(set), packed@)
}

/// Whether an action refuses the request: not committed.
pub open spec fn responds_refused(act: CasAction) -> bool {
    act matches CasAction::Respond(r) && !r.ok && r.committed is None
}

/// Whether an action answers that the request committed, with `stamp` as
/// the versionstamp's text.
pub open spec fn responds_committed_with(act: CasAction, stamp: Option<Seq<char>>) -> bool {
    match act {
        CasAction::Respond(r) => r.ok && match r.committed {
            Some(c) => match c.versionstamp {
                Some(t) => stamp == Some(t@),
                None => stamp is None,
            },
            None => false,
        },
        _ => false,
    }
}

/// Whether an action answers a committed request: when the versionstamp was
/// asked for (`want`), with the one that came in standard Base64, or with an
/// error when none came; else with no versionstamp.
pub open spec fn responds_committed(act: CasAction, want: bool, vs: Option<Vec<u8>>) -> bool {
    if want {
        match vs {
            Some(b) => responds_committed_with(
                act,
                Some(crate::codec::ascii_chars(crate::codec::spec_b64_encode(b@, false, true))),
            ),
            None => act is Fail,
        }
    } else {
        responds_committed_with(act, None)
    }
}

/// One step of a compare-and-set transaction over its keys (`packed` holds the
/// database key of each): the next state and action for an event.
pub open spec fn spec_cas_step(
    keys: Seq<KvCompareAndSetManyRequestKey<Vec<u8>>>,
    packed: Seq<Vec<u8>>,
    st: CasState,
    ev: CasEvent,
    next: CasState,
    act: CasAction,
) -> bool {
    match st.phase {
        CasPhase::AtKey(i) => if ev is Proceed {
            if i >= keys.len() {
                next == (CasState { phase: CasPhase::Committing, has_versionstamp: st.has_versionstamp })
                    && act == (CasAction::Commit { want_versionstamp: st.has_versionstamp })
            } else if spec_needs_read(keys[i as int].check) {
                next == (CasState { phase: CasPhase::Reading(i), has_versionstamp: st.has_versionstamp })
                    && act == CasAction::Read(i)
            } else {
                next == cas_after_write(st, i as int, keys[i as int].set) && writes_set_of(
                    act,
                    keys[i as int].set,
                    packed[i as int],
                )
            }
        } else {
            next == st && act is Ignore
        },
        CasPhase::Reading(i) => match ev {
            CasEvent::Value(cur) => if i < keys.len() && spec_check_passes(
                check_view(keys[i as int].check),
                match cur {
                    Some(v) => Some(v@),
                    None => None,
                },
            ) {
                next == cas_after_write(st, i as int, keys[i as int].set) && writes_set_of(
                    act,
                    keys[i as int].set,
                    packed[i as int],
                )
            } else {
                next == (CasState { phase: CasPhase::Done, has_versionstamp: st.has_versionstamp })
                    && responds_refused(act)
            },
            _ => next == st && act is Ignore,
        },
        CasPhase::Committing => match ev {
            CasEvent::Committed(vs) => next == (CasState {
                phase: CasPhase::Done,
                has_versionstamp: st.has_versionstamp,
            }) && responds_committed(act, st.has_versionstamp, vs),
            CasEvent::Conflict => next == cas_initial() && act is Reset,
            CasEvent::Failed => next == (CasState { phase: CasPhase::Done, has_versionstamp: st.has_versionstamp })
                && act is Fail,
            _ => next == st && act is Ignore,
        },
        CasPhase::Done => next == st && act is Ignore,
    }
}

/// The write of the key at `i`, and the state after it.
fn cas_write(req: &KvCompareAndSetManyRequest<Vec<u8>>, packed: &Vec<Vec<u8>>, st: CasState, i: usize) -> (res: (
    CasState,
    CasAction,
))
    requires
        i < req.keys@.len(),
        packed@.len() == req.keys@.len(),
    ensures
        res.0 == cas_after_write(st, i as int, req.keys@[i as int].set),
        writes_set_of(res.1, req.keys@[i as int].set, packed@[i as int]),
{
    let n = req.keys.len();
    let set = &req.keys[i].set;
    let versioned = match set {
        TriStateSet::WithVersionstampedKey { .. } => true,
        _ => false,
    };
    let m = mutation_for(set, &packed[i]);
    (CasState { phase: CasPhase::AtKey(i + 1), has_versionstamp: st.has_versionstamp || versioned }, CasAction::Write(m))
}

/// The decisions of a compare-and-set transaction, one event at a time. Keys
/// are handled in order: a key whose check is not `Any` is read first, and a
/// failed check ends the request unanswered by a commit; each key's set is
/// written before the next key is handled; after the last key the transaction
/// commits, asking for the versionstamp when a versionstamped write was made.
/// A conflict at commit resets the transaction and starts over from the first
/// key. `packed` holds the database key of each request key.
pub fn cas_step(req: &KvCompareAndSetManyRequest<Vec<u8>>, packed: &Vec<Vec<u8>>, st: CasState, ev: CasEvent) -> (res: (
    CasState,
    CasAction,
))
    requires
        packed@.len() == req.keys@.len(),
    ensures
        spec_cas_step(req.keys@, packed@, st, ev, res.0, res.1),
{
    match st.phase {
        CasPhase::AtKey(i) => match ev {
            CasEvent::Proceed => {
                if i >= req.keys.len() {
                    (CasState { phase: CasPhase::Committing, has_versionstamp: st.has_versionstamp }, CasAction::Commit {
                        want_versionstamp: st.has_versionstamp,
                    })
                } else if needs_read(&req.keys[i].check) {
                    (CasState { phase: CasPhase::Reading(i), has_versionstamp: st.has_versionstamp }, CasAction::Read(i))
                } else {
                    cas_write(req, packed, st, i)
                }
            },
            _ => (st, CasAction::Ignore),
        },
        CasPhase::Reading(i) => match ev {
            CasEvent::Value(cur) => {
                if i < req.keys.len() && check_passes(&req.keys[i].check, cur.as_ref()) {
                    cas_write(req, packed, st, i)
                } else {
                    (CasState { phase: CasPhase::Done, has_versionstamp: st.has_versionstamp }, CasAction::Respond(
                        KvCompareAndSetManyResponse { ok: false, committed: None },
                    ))
                }
            },
            _ => (st, CasAction::Ignore),
        },
        CasPhase::Committing => match ev {
            CasEvent::Committed(vs) => {
                let next = CasState { phase: CasPhase::Done, has_versionstamp: st.has_versionstamp };
                if !st.has_versionstamp {
                    (next, CasAction::Respond(
                        KvCompareAndSetManyResponse { ok: true, committed: Some(CompareAndSetResult { versionstamp: None }) },
                    ))
                } else {
                    match vs {
                        Some(b) => {
                            let versionstamp = Some(crate::codec::base64_standard_encode(b.as_slice()));
                            (next, CasAction::Respond(
                                KvCompareAndSetManyResponse { ok: true, committed: Some(CompareAndSetResult { versionstamp }) },
                            ))
                        },
                        None => (next, CasAction::Fail),
                    }
                }
            },
            CasEvent::Conflict => (CasState { phase: CasPhase::AtKey(0), has_versionstamp: false }, CasAction::Reset),
            CasEvent::Failed => (CasState { phase: CasPhase::Done, has_versionstamp: st.has_versionstamp }, CasAction::Fail),
            _ => (st, CasAction::Ignore),
        },
        CasPhase::Done => (st, CasAction::Ignore),
    }
}

/// The state in which a compare-and-set transaction starts: at the first key,
/// with no versionstamped write.
pub fn cas_start() -> (res: CasState)
    ensures
        res == cas_initial(),
{
    CasState { phase: CasPhase::AtKey(0), has_versionstamp: false }
}

/// The path of a listing's cursor key: the listed prefix, `/`, and the
/// cursor.
pub fn cursor_path(prefix: &str, cursor: &str) -> (res: String)
    ensures
        res@ == prefix@ + "/"@ + cursor@,
{
    let s = String::from_str(prefix);
    let s = s.concat("/");
    s.concat(cursor)
}

/// Whether states, events and actions form a run of the compare-and-set
/// machine: each state is followed by the next one through the event, with
/// the action the machine asks for.
pub open spec fn is_cas_run(
    keys: Seq<KvCompareAndSetManyRequestKey<Vec<u8>>>,
    packed: Seq<Vec<u8>>,
    states: Seq<CasState>,
    events: Seq<CasEvent>,
    actions: Seq<CasAction>,
) -> bool {
    &&& states.len() == events.len() + 1
    &&& actions.len() == events.len()
    &&& forall|k: int| 0 <= k < events.len() ==> #[trigger] spec_cas_step(keys, packed, states[k], events[k], states[k + 1], actions[k])
}

/// The key index a phase is at; none for the other phases.
pub open spec fn phase_key(p: CasPhase) -> int {
    match p {
        CasPhase::AtKey(i) => i as int,
        CasPhase::Reading(i) => i as int,
        _ => -1,
    }
}

/// The keys written in steps `from` to `to` (exclusive) of a run, in order.
pub open spec fn written_keys(states: Seq<CasState>, actions: Seq<CasAction>, from: int, to: int) -> Seq<int>
    decreases to - from,
{
    if to <= from {
        Seq::empty()
    } else {
        let prev = written_keys(states, actions, from, to - 1);
        if actions[to - 1] is Write {
            prev.push(phase_key(states[to - 1].phase))
        } else {
            prev
        }
    }
}

/// The keys `0` to `n - 1`, in order.
pub open spec fn first_keys(n: int) -> Seq<int> {
    Seq::new(n as nat, |k: int| k)
}

/// Whether one of the first `n` keys sets a versionstamped key.
pub open spec fn some_versioned(keys: Seq<KvCompareAndSetManyRequestKey<Vec<u8>>>, n: int) -> bool {
    exists|j: int| 0 <= j < n && (#[trigger] keys[j]).set is WithVersionstampedKey
}

/// What an attempt has done by the time it reaches a state: at key `i` (or
/// reading it), keys `0` to `i - 1` were written, in order, and the state
/// asks for a versionstamp exactly when one of them set a versionstamped key;
/// when committing, all of them were written.
pub open spec fn attempt_progress(
    keys: Seq<KvCompareAndSetManyRequestKey<Vec<u8>>>,
    st: CasState,
    written: Seq<int>,
) -> bool {
    let n = keys.len() as int;
    match st.phase {
        CasPhase::AtKey(i) => i <= n && written == first_keys(i as int) && st.has_versionstamp == some_versioned(
            keys,
            i as int,
        ),
        CasPhase::Reading(i) => i < n && written == first_keys(i as int) && st.has_versionstamp == some_versioned(
            keys,
            i as int,
        ),
        CasPhase::Committing => written == first_keys(n) && st.has_versionstamp == some_versioned(keys, n),
        CasPhase::Done => true,
    }
}

proof fn lemma_some_versioned_step(keys: Seq<KvCompareAndSetManyRequestKey<Vec<u8>>>, i: int)
    requires
        0 <= i < keys.len(),
    ensures
        some_versioned(keys, i + 1) == (some_versioned(keys, i) || keys[i].set is WithVersionstampedKey),
{
    if some_versioned(keys, i + 1) && !(keys[i].set is WithVersionstampedKey) {
        let j = choose|j: int| 0 <= j < i + 1 && (#[trigger] keys[j]).set is WithVersionstampedKey;
        assert(j != i);
    }
    if some_versioned(keys, i) {
        let j = choose|j: int| 0 <= j < i && (#[trigger] keys[j]).set is WithVersionstampedKey;
        assert(0 <= j < i + 1);
    }
    if keys[i].set is WithVersionstampedKey {
        assert(0 <= i < i + 1 && keys[i].set is WithVersionstampedKey);
    }
}

proof fn lemma_attempt_progress(
    keys: Seq<KvCompareAndSetManyRequestKey<Vec<u8>>>,
    packed: Seq<Vec<u8>>,
    states: Seq<CasState>,
    events: Seq<CasEvent>,
    actions: Seq<CasAction>,
    s: int,
    t: int,
)
    requires
        is_cas_run(keys, packed, states, events, actions),
        keys.len() <= usize::MAX,
        0 <= s <= t <= events.len(),
        states[s] == cas_initial(),
        forall|k: int| s <= k < t ==> !(#[trigger] actions[k] is Reset),
    ensures
        attempt_progress(keys, states[t], written_keys(states, actions, s, t)),
    decreases t - s,
{
    if t == s {
        assert(first_keys(0) =~= Seq::<int>::empty());
    } else {
        lemma_attempt_progress(keys, packed, states, events, actions, s, t - 1);
        let k = t - 1;
        assert(spec_cas_step(keys, packed, states[k], events[k], states[k + 1], actions[k]));
        assert(!(actions[k] is Reset));
        let w = written_keys(states, actions, s, k);
        match states[k].phase {
            CasPhase::AtKey(i) => {
                if actions[k] is Write {
                    assert(first_keys(i as int).push(i as int) =~= first_keys(i + 1));
                    lemma_some_versioned_step(keys, i as int);
                }
            },
            CasPhase::Reading(i) => {
                if actions[k] is Write {
                    assert(first_keys(i as int).push(i as int) =~= first_keys(i + 1));
                    lemma_some_versioned_step(keys, i as int);
                }
            },
            _ => {},
        }
    }
}

/// A compare-and-set commits only after handling every key once, in order:
/// in a run, from the start of an attempt (the initial state, at the start
/// or right after a reset) up to a commit, the keys written are exactly the
/// keys of the request in order; and each key was written either without a
/// check (`Any`) or right after a read whose value passed its check.
pub proof fn law_commit_after_every_key(
    keys: Seq<KvCompareAndSetManyRequestKey<Vec<u8>>>,
    packed: Seq<Vec<u8>>,
    states: Seq<CasState>,
    events: Seq<CasEvent>,
    actions: Seq<CasAction>,
    s: int,
    t: int,
)
    requires
        is_cas_run(keys, packed, states, events, actions),
        keys.len() <= usize::MAX,
        0 <= s <= t < events.len(),
        states[s] == cas_initial(),
        forall|k: int| s <= k < t ==> !(#[trigger] actions[k] is Reset),
        actions[t] is Commit,
    ensures
        written_keys(states, actions, s, t) == first_keys(keys.len() as int),
        forall|k: int|
            s <= k < t && (#[trigger] actions[k]) is Write ==> match states[k].phase {
                CasPhase::AtKey(i) => keys[i as int].check is Any,
                CasPhase::Reading(i) => events[k] matches CasEvent::Value(cur) && spec_check_passes(
                    check_view(keys[i as int].check),
                    match cur {
                        Some(v) => Some(v@),
                        None => None,
                    },
                ),
                _ => false,
            },
{
    lemma_attempt_progress(keys, packed, states, events, actions, s, t);
    assert(spec_cas_step(keys, packed, states[t], events[t], states[t + 1], actions[t]));
    assert forall|k: int|
        s <= k < t && (#[trigger] actions[k]) is Write implies match states[k].phase {
            CasPhase::AtKey(i) => keys[i as int].check is Any,
            CasPhase::Reading(i) => events[k] matches CasEvent::Value(cur) && spec_check_passes(
                check_view(keys[i as int].check),
                match cur {
                    Some(v) => Some(v@),
                    None => None,
                },
            ),
            _ => false,
        } by {
        assert(spec_cas_step(keys, packed, states[k], events[k], states[k + 1], actions[k]));
    }
}

/// A committed compare-and-set carries a versionstamp exactly when the
/// request sets a versionstamped key: in a run, from the start of an attempt
/// up to a step with no reset between, the commit asks for the versionstamp
/// exactly then, and an answer that the request committed holds one exactly
/// then.
pub proof fn law_versionstamp_iff_versioned_set(
    keys: Seq<KvCompareAndSetManyRequestKey<Vec<u8>>>,
    packed: Seq<Vec<u8>>,
    states: Seq<CasState>,
    events: Seq<CasEvent>,
    actions: Seq<CasAction>,
    s: int,
    t: int,
)
    requires
        is_cas_run(keys, packed, states, events, actions),
        keys.len() <= usize::MAX,
        0 <= s <= t < events.len(),
        states[s] == cas_initial(),
        forall|k: int| s <= k < t ==> !(#[trigger] actions[k] is Reset),
    ensures
        actions[t] matches CasAction::Commit { want_versionstamp } ==> want_versionstamp == some_versioned(
            keys,
            keys.len() as int,
        ),
        actions[t] is Respond && actions[t]->Respond_0.ok ==> (actions[t]->Respond_0.committed matches Some(c) && (
        c.versionstamp is Some <==> some_versioned(keys, keys.len() as int))),
{
    lemma_attempt_progress(keys, packed, states, events, actions, s, t);
    assert(spec_cas_step(keys, packed, states[t], events[t], states[t + 1], actions[t]));
}

/// Whether key `a` sorts before key `b` in the byte order of the database:
/// at the first place where they differ `a` has the smaller byte, or `a` is a
/// proper prefix of `b`.
pub open spec fn key_before(a: Seq<u8>, b: Seq<u8>) -> bool {
    exists|i: int|
        0 <= i <= a.len() && i <= b.len() && #[trigger] a.take(i) == b.take(i) && ((i == a.len() && i < b.len()) || (
        i < a.len() && i < b.len() && a[i] < b[i]))
}

/// Whether a key lies in a range: from its start (included) to its end
/// (excluded).
pub open spec fn key_in_range(k: Seq<u8>, range: (Seq<u8>, Seq<u8>)) -> bool {
    (range.0 == k || key_before(range.0, k)) && key_before(k, range.1)
}

/// A listing without a cursor covers the whole prefix, forward or reverse:
/// its range holds the packed prefix itself and every key that extends it by
/// bytes whose first is not `0xFF`, whatever the direction. With a cursor, a
/// forward listing starts right after the cursor key and still ends at the
/// end of the prefix, and a reverse listing starts at the prefix and ends at
/// the cursor key (excluded).
pub proof fn law_prefix_range_covers_prefix(start: Seq<u8>, cursor: Option<Seq<u8>>, reverse: bool, k: Seq<u8>)
    ensures
        cursor is None ==> key_in_range(start, spec_prefix_range(start, cursor, reverse)),
        (cursor is None && k.len() > start.len() && k.take(start.len() as int) == start && k[start.len() as int]
            < 0xFFu8) ==> key_in_range(k, spec_prefix_range(start, cursor, reverse)),
        cursor is None ==> spec_prefix_range(start, cursor, true) == spec_prefix_range(start, cursor, false),
        cursor matches Some(c) ==> (!reverse ==> (key_before(c, spec_prefix_range(start, cursor, reverse).0)
            && spec_prefix_range(start, cursor, reverse).1 == start.push(0xFFu8))),
        cursor matches Some(c) ==> (reverse ==> spec_prefix_range(start, cursor, reverse) == (start, c)),
{
    let end = start.push(0xFFu8);
    let n = start.len() as int;
    assert(start.take(n) =~= end.take(n));
    assert(key_before(start, end));
    if cursor is None && k.len() > start.len() && k.take(n) == start && k[n] < 0xFFu8 {
        assert(start.take(n) =~= k.take(n));
        assert(key_before(start, k));
        assert(k.take(n) =~= end.take(n));
        assert(key_before(k, end));
    }
    if let Some(c) = cursor {
        let b = c.push(0u8);
        assert(c.take(c.len() as int) =~= b.take(c.len() as int));
        assert(key_before(c, b));
    }
}

} // verus!
