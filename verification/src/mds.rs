//! The metadata service client's request and response logic: the key paths of
//! user keys, the encoded paths that requests carry, the lists a
//! compare-and-set sends, and the decoding of what the service answers.

use vstd::prelude::*;
use vstd::string::StringExecFns;
use vstd::utf8::encode_utf8;
use crate::codec::{ascii_chars, b64_decoded, base64_standard_decode, base64_standard_encode, spec_b64_encode, Base64Error};
use crate::keycodec::{decode_path, encode_path, from_utf8_lossy, frame_all, path_segments, spec_decode_path, utf8_lossy, KeyCodecError};
use crate::kv::{byte_len, check_view, set_view, TriStateCheck, TriStateSet};
use crate::text::{chars_of, split_chars, split_seq, string_from_chars};

verus! {

/// An error of the service that a retry may clear.
#[derive(Debug, Clone)]
pub struct RetryableMdsError {
    description: String,
}

impl RetryableMdsError {
    /// The error's description.
    pub closed spec fn spec_description(&self) -> Seq<char> {
        self.description@
    }

    /// An error with this description.
    pub fn new(description: String) -> (res: RetryableMdsError)
        ensures
            res.spec_description() == description@,
    {
        RetryableMdsError { description }
    }

    /// The error's message: `retryable mds error: ` and the description.
    pub fn message(&self) -> (res: String)
        ensures
            res@ == "retryable mds error: "@ + self.spec_description(),
    {
        let s = String::from_str("retryable mds error: ");
        s.concat(self.description.as_str())
    }
}

/// The non-empty pieces of text between `/`.
pub open spec fn nonempty_parts(s: Seq<char>) -> Seq<Seq<char>> {
    split_seq(s, '/').filter(|p: Seq<char>| p.len() > 0)
}

/// The segments of a user key in a cluster: the cluster's prefix, then the
/// non-empty parts of the namespace prefix, then those of the key's path.
pub open spec fn spec_user_key_path(cluster_prefix: Seq<char>, ns_prefix: Seq<char>, path: Seq<char>) -> Seq<Seq<char>> {
    seq![cluster_prefix] + nonempty_parts(ns_prefix) + nonempty_parts(path)
}

/// The view of a list of strings.
pub open spec fn strings_view(v: Seq<String>) -> Seq<Seq<char>> {
    v.map_values(|s: String| s@)
}

/// Appends the non-empty parts of `s` between `/` to `out`.
fn push_nonempty_parts(out: &mut Vec<String>, s: &str)
    ensures
        strings_view(final(out)@) == strings_view(old(out)@) + nonempty_parts(s@),
{
    let c = chars_of(s);
    let parts = split_chars(c.as_slice(), '/');
    let ghost sp = split_seq(s@, '/');
    let ghost start = strings_view(out@);
    let mut i: usize = 0;
    while i < parts.len()
        invariant
            i <= parts.len(),
            parts@.len() == sp.len(),
            sp == split_seq(s@, '/'),
            forall|j: int| 0 <= j < parts@.len() ==> #[trigger] parts@[j]@ == sp[j],
            strings_view(out@) == start + sp.take(i as int).filter(|p: Seq<char>| p.len() > 0),
        decreases parts.len() - i,
    {
        proof {
            assert(sp.take(i + 1).drop_last() == sp.take(i as int));
            reveal(Seq::filter);
            assert(sp.take(i + 1).last() == sp[i as int]);
        }
        if parts[i].len() > 0 {
            let p = string_from_chars(parts[i].as_slice());
            let ghost before = out@;
            let ghost pv = p@;
            out.push(p);
            proof {
                assert(strings_view(out@) =~= strings_view(before).push(pv));
                assert(start + sp.take(i as int).filter(|p: Seq<char>| p.len() > 0).push(pv) =~= (start + sp.take(
                    i as int,
                ).filter(|p: Seq<char>| p.len() > 0)).push(pv));
            }
        }
        i += 1;
    }
    proof {
        assert(sp.take(parts@.len() as int) == sp);
    }
}

/// The segments of a user key, as packing a key for the database lists them:
/// the cluster's prefix, then the non-empty parts of the namespace prefix and
/// of the path, split at `/`.
pub fn user_key_path(cluster_prefix: &str, ns_prefix: &str, path: &str) -> (res: Vec<String>)
    ensures
        strings_view(res@) == spec_user_key_path(cluster_prefix@, ns_prefix@, path@),
{
    let mut out: Vec<String> = Vec::new();
    out.push(String::from_str(cluster_prefix));
    proof {
        assert(strings_view(out@) =~= seq![cluster_prefix@]);
    }
    push_nonempty_parts(&mut out, ns_prefix);
    push_nonempty_parts(&mut out, path);
    out
}

/// The segments that every key of a namespace starts with: the cluster's
/// prefix and the non-empty parts of the namespace prefix.
pub fn namespace_key_path(cluster_prefix: &str, ns_prefix: &str) -> (res: Vec<String>)
    ensures
        strings_view(res@) == seq![cluster_prefix@] + nonempty_parts(ns_prefix@),
{
    let mut out: Vec<String> = Vec::new();
    out.push(String::from_str(cluster_prefix));
    proof {
        assert(strings_view(out@) =~= seq![cluster_prefix@]);
    }
    push_nonempty_parts(&mut out, ns_prefix);
    out
}

/// The outcome of encoding a path.
pub open spec fn spec_encode_path(p: Seq<char>) -> Result<Seq<u8>, KeyCodecError> {
    if encode_utf8(p).contains(0u8) {
        Err(KeyCodecError::SegmentContainsNul)
    } else {
        Ok(frame_all(path_segments(p)))
    }
}

/// Encoding paths in order: the encodings, or the error of the first path
/// that cannot be encoded.
pub open spec fn spec_encode_paths(paths: Seq<Seq<char>>) -> Result<Seq<Seq<u8>>, KeyCodecError>
    decreases paths.len(),
{
    if paths.len() == 0 {
        Ok(Seq::empty())
    } else {
        match spec_encode_paths(paths.drop_last()) {
            Err(e) => Err(e),
            Ok(v) => match spec_encode_path(paths.last()) {
                Err(e) => Err(e),
                Ok(x) => Ok(v.push(x)),
            },
        }
    }
}

/// The view of a list of byte vectors.
pub open spec fn bytes_list_view(v: Seq<Vec<u8>>) -> Seq<Seq<u8>> {
    v.map_values(|b: Vec<u8>| b@)
}

/// Encodes the paths of a get-many request, in order.
pub fn encode_paths(paths: &Vec<String>) -> (res: Result<Vec<Vec<u8>>, KeyCodecError>)
    ensures
        match spec_encode_paths(strings_view(paths@)) {
            Ok(v) => res matches Ok(out) && bytes_list_view(out@) == v,
            Err(e) => res == Err::<Vec<Vec<u8>>, KeyCodecError>(e),
        },
{
    let ghost pv = strings_view(paths@);
    let mut out: Vec<Vec<u8>> = Vec::new();
    proof {
        assert(pv.take(0) =~= Seq::<Seq<char>>::empty());
        assert(bytes_list_view(out@) =~= Seq::<Seq<u8>>::empty());
    }
    let mut i: usize = 0;
    while i < paths.len()
        invariant
            i <= paths.len(),
            pv == strings_view(paths@),
            spec_encode_paths(pv.take(i as int)) == Ok::<Seq<Seq<u8>>, KeyCodecError>(bytes_list_view(out@)),
        decreases paths.len() - i,
    {
        proof {
            assert(pv.take(i + 1).drop_last() == pv.take(i as int));
        }
        match encode_path(paths[i].as_str()) {
            Ok(x) => {
                let ghost before = out@;
                out.push(x);
                proof {
                    assert(bytes_list_view(out@) =~= bytes_list_view(before).push(x@));
                }
            },
            Err(e) => {
                proof {
                    lemma_encode_paths_err_sticks(pv, i + 1);
                }
                return Err(e);
            },
        }
        i += 1;
    }
    proof {
        assert(pv.take(paths.len() as int) == pv);
    }
    Ok(out)
}

proof fn lemma_encode_paths_err_sticks(paths: Seq<Seq<char>>, n: int)
    requires
        0 <= n <= paths.len(),
        spec_encode_paths(paths.take(n)) is Err,
    ensures
        spec_encode_paths(paths) == spec_encode_paths(paths.take(n)),
    decreases paths.len(),
{
    if n == paths.len() {
        assert(paths.take(n) == paths);
    } else {
        assert(paths.drop_last().take(n) == paths.take(n));
        lemma_encode_paths_err_sticks(paths.drop_last(), n);
    }
}

/// Why an answer of the service cannot be read.
#[derive(Debug, Clone, Copy, PartialEq, Eq, Structural)]
pub enum MdsResponseError {
    /// The answer does not have one value per key asked for.
    UnexpectedResponseLength,
    /// A value is not valid Base64.
    Base64(Base64Error),
    /// A returned key is not a valid encoded path.
    Path(KeyCodecError),
}

/// Standard Base64 decoding of text.
pub open spec fn b64_std(s: Seq<char>) -> Result<Seq<u8>, Base64Error> {
    b64_decoded(encode_utf8(s), false, true)
}

/// Decoding the values of a get-many answer, in order: each present value is
/// Base64 text; the first that is not valid gives the error.
pub open spec fn spec_decode_values(values: Seq<Option<Seq<char>>>) -> Result<Seq<Option<Seq<u8>>>, MdsResponseError>
    decreases values.len(),
{
    if values.len() == 0 {
        Ok(Seq::empty())
    } else {
        match spec_decode_values(values.drop_last()) {
            Err(e) => Err(e),
            Ok(v) => match values.last() {
                None => Ok(v.push(None)),
                Some(t) => match b64_std(t) {
                    Err(e) => Err(MdsResponseError::Base64(e)),
                    Ok(b) => Ok(v.push(Some(b))),
                },
            },
        }
    }
}

/// The view of an optional string.
pub open spec fn opt_string_view(o: Option<String>) -> Option<Seq<char>> {
    match o {
        Some(s) => Some(s@),
        None => None,
    }
}

/// The view of an optional byte vector.
pub open spec fn opt_bytes_view(o: Option<Vec<u8>>) -> Option<Seq<u8>> {
    match o {
        Some(b) => Some(b@),
        None => None,
    }
}

/// Whether every string is short enough for the Base64 decoder.
pub open spec fn decodable_lengths(values: Seq<Option<String>>) -> bool {
    forall|i: int| 0 <= i < values.len() ==> (#[trigger] values[i] matches Some(s) ==> byte_len(s@) + 3 <= usize::MAX)
}

/// Reads the answer to a get-many request for `n_keys` keys: one value per
/// key, each absent or Base64 text.
pub fn decode_get_many_values(n_keys: usize, values: &Vec<Option<String>>) -> (res: Result<
    Vec<Option<Vec<u8>>>,
    MdsResponseError,
>)
    requires
        decodable_lengths(values@),
    ensures
        values@.len() != n_keys ==> res == Err::<Vec<Option<Vec<u8>>>, MdsResponseError>(
            MdsResponseError::UnexpectedResponseLength,
        ),
        values@.len() == n_keys ==> match spec_decode_values(values@.map_values(|o: Option<String>| opt_string_view(o))) {
            Ok(v) => (res matches Ok(out) && out@.map_values(|o: Option<Vec<u8>>| opt_bytes_view(o)) == v),
            Err(e) => res == Err::<Vec<Option<Vec<u8>>>, MdsResponseError>(e),
        },
{
    if values.len() != n_keys {
        return Err(MdsResponseError::UnexpectedResponseLength);
    }
    let ghost vv = values@.map_values(|o: Option<String>| opt_string_view(o));
    let mut out: Vec<Option<Vec<u8>>> = Vec::new();
    proof {
        assert(vv.take(0) =~= Seq::<Option<Seq<char>>>::empty());
        assert(out@.map_values(|o: Option<Vec<u8>>| opt_bytes_view(o)) =~= Seq::<Option<Seq<u8>>>::empty());
    }
    let mut i: usize = 0;
    while i < values.len()
        invariant
            i <= values.len(),
            values@.len() == n_keys,
            decodable_lengths(values@),
            vv == values@.map_values(|o: Option<String>| opt_string_view(o)),
            spec_decode_values(vv.take(i as int)) == Ok::<Seq<Option<Seq<u8>>>, MdsResponseError>(
                out@.map_values(|o: Option<Vec<u8>>| opt_bytes_view(o)),
            ),
        decreases values.len() - i,
    {
        proof {
            assert(vv.take(i + 1).drop_last() == vv.take(i as int));
            assert(vv.take(i + 1).last() == opt_string_view(values@[i as int]));
        }
        match &values[i] {
            None => {
                let ghost before = out@;
                out.push(None);
                proof {
                    assert(out@.map_values(|o: Option<Vec<u8>>| opt_bytes_view(o)) =~= before.map_values(
                        |o: Option<Vec<u8>>| opt_bytes_view(o),
                    ).push(None));
                }
            },
            Some(t) => {
                let b = t.as_str().as_bytes();
                proof {
                    assert(values@[i as int] matches Some(s) ==> byte_len(s@) + 3 <= usize::MAX);
                }
                match base64_standard_decode(b) {
                    Ok(x) => {
                        let ghost before = out@;
                        let ghost xv = x@;
                        out.push(Some(x));
                        proof {
                            assert(out@.map_values(|o: Option<Vec<u8>>| opt_bytes_view(o)) =~= before.map_values(
                                |o: Option<Vec<u8>>| opt_bytes_view(o),
                            ).push(Some(xv)));
                        }
                    },
                    Err(e) => {
                        proof {
                            lemma_decode_values_err_sticks(vv, i + 1);
                        }
                        return Err(MdsResponseError::Base64(e));
                    },
                }
            },
        }
        i += 1;
    }
    proof {
        assert(vv.take(values@.len() as int) == vv);
    }
    Ok(out)
}

proof fn lemma_decode_values_err_sticks(values: Seq<Option<Seq<char>>>, n: int)
    requires
        0 <= n <= values.len(),
        spec_decode_values(values.take(n)) is Err,
    ensures
        spec_decode_values(values) == spec_decode_values(values.take(n)),
    decreases values.len(),
{
    if n == values.len() {
        assert(values.take(n) == values);
    } else {
        assert(values.drop_last().take(n) == values.take(n));
        lemma_decode_values_err_sticks(values.drop_last(), n);
    }
}

/// An entry of a compare-and-set list: an encoded path, and standard Base64
/// text of a value or none.
pub type CasEntry = (Vec<u8>, Option<String>);

/// The view of a list entry.
pub open spec fn entry_view(e: CasEntry) -> (Seq<u8>, Option<Seq<char>>) {
    (e.0@, opt_string_view(e.1))
}

/// The view of a list of entries.
pub open spec fn entries_view(v: Seq<CasEntry>) -> Seq<(Seq<u8>, Option<Seq<char>>)> {
    v.map_values(|e: CasEntry| entry_view(e))
}

/// Standard Base64 text of bytes.
pub open spec fn b64_text(b: Seq<u8>) -> Seq<char> {
    ascii_chars(spec_b64_encode(b, false, true))
}

/// The check a key contributes: none for a versionstamped write (its key is
/// unique) or an `Any` check; else the path with the expected value, or with
/// none when the key must be absent.
pub open spec fn check_entry(path: Seq<u8>, check: TriStateCheck<Seq<u8>>, set: TriStateSet<Seq<u8>>) -> Option<(Seq<u8>, Option<Seq<char>>)> {
    if set is WithVersionstampedKey {
        None
    } else {
        match check {
            TriStateCheck::Value(x) => Some((path, Some(b64_text(x)))),
            TriStateCheck::Absent => Some((path, None)),
            TriStateCheck::Any => None,
        }
    }
}

/// The plain write a key contributes: the value to write, or none to delete.
pub open spec fn set_entry(path: Seq<u8>, set: TriStateSet<Seq<u8>>) -> Option<(Seq<u8>, Option<Seq<char>>)> {
    match set {
        TriStateSet::Value(x) => Some((path, Some(b64_text(x)))),
        TriStateSet::Delete => Some((path, None)),
        _ => None,
    }
}

/// The versionstamped write a key contributes.
pub open spec fn versionstamped_entry(path: Seq<u8>, set: TriStateSet<Seq<u8>>) -> Option<(Seq<u8>, Option<Seq<char>>)> {
    match set {
        TriStateSet::WithVersionstampedKey { value } => Some((path, Some(b64_text(value)))),
        _ => None,
    }
}

/// Appends an optional entry.
pub open spec fn push_opt<A>(s: Seq<A>, o: Option<A>) -> Seq<A> {
    match o {
        Some(x) => s.push(x),
        None => s,
    }
}

/// The three lists of a compare-and-set over encoded keys: checks, writes and
/// versionstamped writes, each in the order of the keys.
pub open spec fn spec_cas_lists(items: Seq<(Seq<u8>, TriStateCheck<Seq<u8>>, TriStateSet<Seq<u8>>)>) -> (
    Seq<(Seq<u8>, Option<Seq<char>>)>,
    Seq<(Seq<u8>, Option<Seq<char>>)>,
    Seq<(Seq<u8>, Option<Seq<char>>)>,
)
    decreases items.len(),
{
    if items.len() == 0 {
        (Seq::empty(), Seq::empty(), Seq::empty())
    } else {
        let prev = spec_cas_lists(items.drop_last());
        let (p, c, t) = items.last();
        (push_opt(prev.0, check_entry(p, c, t)), push_opt(prev.1, set_entry(p, t)), push_opt(
            prev.2,
            versionstamped_entry(p, t),
        ))
    }
}

/// The lists that a compare-and-set sends to the service.
pub struct CasLists {
    pub checks: Vec<CasEntry>,
    pub sets: Vec<CasEntry>,
    pub versionstamped_sets: Vec<CasEntry>,
}

/// The view of a request item: its path's text, its check and its set.
pub open spec fn cas_item_view(x: (String, TriStateCheck<Vec<u8>>, TriStateSet<Vec<u8>>)) -> (Seq<char>, TriStateCheck<Seq<u8>>, TriStateSet<Seq<u8>>) {
    (x.0@, check_view(x.1), set_view(x.2))
}

/// The items with their paths replaced by the given encodings.
pub open spec fn with_encoded(
    items: Seq<(Seq<char>, TriStateCheck<Seq<u8>>, TriStateSet<Seq<u8>>)>,
    enc: Seq<Seq<u8>>,
) -> Seq<(Seq<u8>, TriStateCheck<Seq<u8>>, TriStateSet<Seq<u8>>)> {
    Seq::new(items.len(), |i: int| (enc[i], items[i].1, items[i].2))
}

/// Standard Base64 text of bytes, as an optional string.
fn b64_some(b: &Vec<u8>) -> (res: Option<String>)
    ensures
        res matches Some(t) && t@ == b64_text(b@),
{
    Some(base64_standard_encode(b.as_slice()))
}

/// Builds the lists of a compare-and-set: the paths are encoded first, in
/// order, and the first that cannot be encoded refuses the request; then each
/// key contributes its check, its write or its versionstamped write.
pub fn compare_and_set_lists(items: &Vec<(String, TriStateCheck<Vec<u8>>, TriStateSet<Vec<u8>>)>) -> (res: Result<
    CasLists,
    KeyCodecError,
>)
    ensures
        ({
            let iv = items@.map_values(|x: (String, TriStateCheck<Vec<u8>>, TriStateSet<Vec<u8>>)| cas_item_view(x));
            match spec_encode_paths(iv.map_values(|x: (Seq<char>, TriStateCheck<Seq<u8>>, TriStateSet<Seq<u8>>)| x.0)) {
                Err(e) => res == Err::<CasLists, KeyCodecError>(e),
                Ok(enc) => res matches Ok(l) && (entries_view(l.checks@), entries_view(l.sets@), entries_view(
                    l.versionstamped_sets@,
                )) == spec_cas_lists(with_encoded(iv, enc)),
            }
        }),
{
    let ghost iv = items@.map_values(|x: (String, TriStateCheck<Vec<u8>>, TriStateSet<Vec<u8>>)| cas_item_view(x));
    let mut paths: Vec<String> = Vec::new();
    let mut k: usize = 0;
    while k < items.len()
        invariant
            k <= items.len(),
            iv == items@.map_values(|x: (String, TriStateCheck<Vec<u8>>, TriStateSet<Vec<u8>>)| cas_item_view(x)),
            strings_view(paths@) == iv.take(k as int).map_values(|x: (Seq<char>, TriStateCheck<Seq<u8>>, TriStateSet<Seq<u8>>)| x.0),
        decreases items.len() - k,
    {
        let ghost before = paths@;
        let p = items[k].0.clone();
        paths.push(p);
        proof {
            assert(strings_view(paths@) =~= strings_view(before).push(items@[k as int].0@));
            assert(iv.take(k + 1) =~= iv.take(k as int).push(iv[k as int]));
            assert(strings_view(paths@) =~= iv.take(k + 1).map_values(|x: (Seq<char>, TriStateCheck<Seq<u8>>, TriStateSet<Seq<u8>>)| x.0));
        }
        k += 1;
    }
    proof {
        assert(iv.take(items@.len() as int) == iv);
    }
    let enc = match encode_paths(&paths) {
        Ok(e) => e,
        Err(e) => return Err(e),
    };
    let ghost ev = bytes_list_view(enc@);
    let ghost w = with_encoded(iv, ev);
    proof {
        assert(ev.len() == iv.len()) by {
            lemma_encode_paths_len(strings_view(paths@));
        }
    }
    let mut checks: Vec<CasEntry> = Vec::new();
    let mut sets: Vec<CasEntry> = Vec::new();
    let mut vsets: Vec<CasEntry> = Vec::new();
    proof {
        assert(w.take(0) =~= Seq::<(Seq<u8>, TriStateCheck<Seq<u8>>, TriStateSet<Seq<u8>>)>::empty());
        assert(entries_view(checks@) =~= Seq::<(Seq<u8>, Option<Seq<char>>)>::empty());
        assert(entries_view(sets@) =~= Seq::<(Seq<u8>, Option<Seq<char>>)>::empty());
        assert(entries_view(vsets@) =~= Seq::<(Seq<u8>, Option<Seq<char>>)>::empty());
    }
    let mut i: usize = 0;
    while i < items.len()
        invariant
            i <= items.len(),
            enc@.len() == items@.len(),
            iv == items@.map_values(|x: (String, TriStateCheck<Vec<u8>>, TriStateSet<Vec<u8>>)| cas_item_view(x)),
            ev == bytes_list_view(enc@),
            w == with_encoded(iv, ev),
            (entries_view(checks@), entries_view(sets@), entries_view(vsets@)) == spec_cas_lists(w.take(i as int)),
        decreases items.len() - i,
    {
        proof {
            assert(w.take(i + 1).drop_last() =~= w.take(i as int));
            assert(w.take(i + 1).last() == (enc@[i as int]@, check_view(items@[i as int].1), set_view(items@[i as int].2)));
        }
        let path = &enc[i];
        let check = &items[i].1;
        let set = &items[i].2;
        let ghost c0 = checks@;
        let ghost s0 = sets@;
        let ghost v0 = vsets@;
        let versioned = match set {
            TriStateSet::WithVersionstampedKey { .. } => true,
            _ => false,
        };
        if !versioned {
            match check {
                TriStateCheck::Value(x) => checks.push((path.clone(), b64_some(x))),
                TriStateCheck::Absent => checks.push((path.clone(), None)),
                TriStateCheck::Any => {},
            }
        }
        match set {
            TriStateSet::Value(x) => sets.push((path.clone(), b64_some(x))),
            TriStateSet::Delete => sets.push((path.clone(), None)),
            TriStateSet::WithVersionstampedKey { value } => vsets.push((path.clone(), b64_some(value))),
            TriStateSet::Preserve => {},
        }
        proof {
            let (p, c, t) = w.take(i + 1).last();
            assert(entries_view(checks@) =~= push_opt(entries_view(c0), check_entry(p, c, t)));
            assert(entries_view(sets@) =~= push_opt(entries_view(s0), set_entry(p, t)));
            assert(entries_view(vsets@) =~= push_opt(entries_view(v0), versionstamped_entry(p, t)));
        }
        i += 1;
    }
    proof {
        assert(w.take(items@.len() as int) =~= w);
    }
    Ok(CasLists { checks, sets, versionstamped_sets: vsets })
}

proof fn lemma_encode_paths_len(paths: Seq<Seq<char>>)
    ensures
        spec_encode_paths(paths) matches Ok(v) ==> v.len() == paths.len(),
    decreases paths.len(),
{
    if paths.len() > 0 {
        lemma_encode_paths_len(paths.drop_last());
    }
}

/// Reading one listed pair: the key is Base64 text of an encoded path, whose
/// bytes are read as text (invalid UTF-8 replaced) and decoded; the value is
/// Base64 text, and an absent value reads as empty.
pub open spec fn spec_decode_pair(k: Seq<char>, v: Option<Seq<char>>) -> Result<(Seq<char>, Seq<u8>), MdsResponseError> {
    match b64_std(k) {
        Err(e) => Err(MdsResponseError::Base64(e)),
        Ok(kb) => match spec_decode_path(encode_utf8(utf8_lossy(kb))) {
            Err(e) => Err(MdsResponseError::Path(e)),
            Ok(key) => match v {
                None => Ok((key, Seq::empty())),
                Some(t) => match b64_std(t) {
                    Err(e) => Err(MdsResponseError::Base64(e)),
                    Ok(vb) => Ok((key, vb)),
                },
            },
        },
    }
}

/// Reading the pairs of a listing answer, in order; the first pair that
/// cannot be read gives the error.
pub open spec fn spec_decode_pairs(pairs: Seq<(Seq<char>, Option<Seq<char>>)>) -> Result<Seq<(Seq<char>, Seq<u8>)>, MdsResponseError>
    decreases pairs.len(),
{
    if pairs.len() == 0 {
        Ok(Seq::empty())
    } else {
        match spec_decode_pairs(pairs.drop_last()) {
            Err(e) => Err(e),
            Ok(v) => match spec_decode_pair(pairs.last().0, pairs.last().1) {
                Err(e) => Err(e),
                Ok(x) => Ok(v.push(x)),
            },
        }
    }
}

/// The view of a listed pair.
pub open spec fn pair_view(p: (String, Option<String>)) -> (Seq<char>, Option<Seq<char>>) {
    (p.0@, opt_string_view(p.1))
}

/// The view of a decoded pair.
pub open spec fn row_view(p: (String, Vec<u8>)) -> (Seq<char>, Seq<u8>) {
    (p.0@, p.1@)
}

/// Whether every text of the pairs is short enough for the Base64 decoder.
pub open spec fn decodable_pairs(pairs: Seq<(String, Option<String>)>) -> bool {
    forall|i: int| 0 <= i < pairs.len() ==> byte_len((#[trigger] pairs[i]).0@) + 3 <= usize::MAX && (pairs[i].1 matches Some(
        s,
    ) ==> byte_len(s@) + 3 <= usize::MAX)
}

/// Reads one listed pair.
fn decode_pair(k: &String, v: &Option<String>) -> (res: Result<(String, Vec<u8>), MdsResponseError>)
    requires
        byte_len(k@) + 3 <= usize::MAX,
        v matches Some(s) ==> byte_len(s@) + 3 <= usize::MAX,
    ensures
        match spec_decode_pair(k@, opt_string_view(*v)) {
            Err(e) => res == Err::<(String, Vec<u8>), MdsResponseError>(e),
            Ok(x) => res matches Ok(r) && row_view(r) == x,
        },
{
    let kb = match base64_standard_decode(k.as_str().as_bytes()) {
        Ok(b) => b,
        Err(e) => return Err(MdsResponseError::Base64(e)),
    };
    let text = from_utf8_lossy(kb.as_slice());
    let key = match decode_path(text.as_str().as_bytes()) {
        Ok(p) => p,
        Err(e) => return Err(MdsResponseError::Path(e)),
    };
    match v {
        None => Ok((key, Vec::new())),
        Some(t) => match base64_standard_decode(t.as_str().as_bytes()) {
            Ok(b) => Ok((key, b)),
            Err(e) => Err(MdsResponseError::Base64(e)),
        },
    }
}

/// Reads the answer to a prefix listing: each pair is the Base64 text of an
/// encoded key path and, unless absent, the Base64 text of its value.
pub fn decode_prefix_list_pairs(pairs: &Vec<(String, Option<String>)>) -> (res: Result<Vec<(String, Vec<u8>)>, MdsResponseError>)
    requires
        decodable_pairs(pairs@),
    ensures
        match spec_decode_pairs(pairs@.map_values(|p: (String, Option<String>)| pair_view(p))) {
            Err(e) => res == Err::<Vec<(String, Vec<u8>)>, MdsResponseError>(e),
            Ok(v) => res matches Ok(out) && out@.map_values(|r: (String, Vec<u8>)| row_view(r)) == v,
        },
{
    let ghost pv = pairs@.map_values(|p: (String, Option<String>)| pair_view(p));
    let mut out: Vec<(String, Vec<u8>)> = Vec::new();
    proof {
        assert(pv.take(0) =~= Seq::<(Seq<char>, Option<Seq<char>>)>::empty());
        assert(out@.map_values(|r: (String, Vec<u8>)| row_view(r)) =~= Seq::<(Seq<char>, Seq<u8>)>::empty());
    }
    let mut i: usize = 0;
    while i < pairs.len()
        invariant
            i <= pairs.len(),
            decodable_pairs(pairs@),
            pv == pairs@.map_values(|p: (String, Option<String>)| pair_view(p)),
            spec_decode_pairs(pv.take(i as int)) == Ok::<Seq<(Seq<char>, Seq<u8>)>, MdsResponseError>(
                out@.map_values(|r: (String, Vec<u8>)| row_view(r)),
            ),
        decreases pairs.len() - i,
    {
        proof {
            assert(pv.take(i + 1).drop_last() =~= pv.take(i as int));
            assert(pv.take(i + 1).last() == pair_view(pairs@[i as int]));
            assert(byte_len(pairs@[i as int].0@) + 3 <= usize::MAX);
        }
        match decode_pair(&pairs[i].0, &pairs[i].1) {
            Ok(r) => {
                let ghost before = out@;
                let ghost rv = row_view(r);
                out.push(r);
                proof {
                    assert(out@.map_values(|r: (String, Vec<u8>)| row_view(r)) =~= before.map_values(
                        |r: (String, Vec<u8>)| row_view(r),
                    ).push(rv));
                }
            },
            Err(e) => {
                proof {
                    lemma_decode_pairs_err_sticks(pv, i + 1);
                }
                return Err(e);
            },
        }
        i += 1;
    }
    proof {
        assert(pv.take(pairs@.len() as int) =~= pv);
    }
    Ok(out)
}

proof fn lemma_decode_pairs_err_sticks(pairs: Seq<(Seq<char>, Option<Seq<char>>)>, n: int)
    requires
        0 <= n <= pairs.len(),
        spec_decode_pairs(pairs.take(n)) is Err,
    ensures
        spec_decode_pairs(pairs) == spec_decode_pairs(pairs.take(n)),
    decreases pairs.len(),
{
    if n == pairs.len() {
        assert(pairs.take(n) == pairs);
    } else {
        assert(pairs.drop_last().take(n) == pairs.take(n));
        lemma_decode_pairs_err_sticks(pairs.drop_last(), n);
    }
}

/// The path of a user key read back from its segments: the segments after
/// the namespace's, joined with `/`.
pub fn join_user_key(segs: &Vec<String>) -> (res: String)
    ensures
        res@ == crate::text::join_seq(strings_view(segs@), '/'),
{
    let mut parts: Vec<Vec<char>> = Vec::new();
    let mut i: usize = 0;
    while i < segs.len()
        invariant
            i <= segs@.len(),
            parts@.map_values(|p: Vec<char>| p@) == strings_view(segs@.take(i as int)),
        decreases segs@.len() - i,
    {
        let ghost before = parts@.map_values(|p: Vec<char>| p@);
        let c = chars_of(segs[i].as_str());
        parts.push(c);
        proof {
            assert(parts@.map_values(|p: Vec<char>| p@) =~= before.push(segs@[i as int]@));
            assert(strings_view(segs@.take(i + 1)) =~= strings_view(segs@.take(i as int)).push(segs@[i as int]@));
        }
        i += 1;
    }
    proof {
        assert(segs@.take(segs@.len() as int) =~= segs@);
    }
    let joined = crate::text::join_chars(&parts, '/');
    string_from_chars(joined.as_slice())
}

/// How many times a metadata script run is tried before giving up.
pub const MAX_RUN_ATTEMPTS: u32 = 5;

/// The range, in milliseconds (low inclusive, high exclusive), of the random
/// short pause before a run is tried again.
pub const BACKOFF_FAST_MIN_MS: u64 = 10;
pub const BACKOFF_FAST_MAX_MS: u64 = 100;

/// How one try of a metadata script run ended.
#[derive(Debug, Clone, Copy, PartialEq, Eq, Structural)]
pub enum RunOutcome {
    /// The run gave its result.
    Completed,
    /// The run failed with a `RetryableMdsError`.
    Retryable,
    /// The run failed with any other error.
    Failed,
}

/// What to do after a try of a run.
#[derive(Debug, Clone, Copy, PartialEq, Eq, Structural)]
pub enum RetryAction {
    /// Hand the run's result back.
    Finish,
    /// Pause for a random time between the two bounds (milliseconds, the
    /// high one excluded), then make try number `next_attempt`.
    RetryAfter { next_attempt: u32, min_ms: u64, max_ms: u64 },
    /// Hand the run's error back.
    Fail,
    /// Give up: every try failed with a retryable error.
    TooManyRetries,
}

/// The decision after try number `attempt` (from 0) of a run: a result is
/// handed back, a non-retryable error too; a retryable error leads to a short
/// random pause and the next try, unless this was the last of the
/// `MAX_RUN_ATTEMPTS` tries.
pub open spec fn spec_retry_step(attempt: int, outcome: RunOutcome) -> RetryAction {
    match outcome {
        RunOutcome::Completed => RetryAction::Finish,
        RunOutcome::Failed => RetryAction::Fail,
        RunOutcome::Retryable => if attempt + 1 < MAX_RUN_ATTEMPTS {
            RetryAction::RetryAfter {
                next_attempt: (attempt + 1) as u32,
                min_ms: BACKOFF_FAST_MIN_MS,
                max_ms: BACKOFF_FAST_MAX_MS,
            }
        } else {
            RetryAction::TooManyRetries
        },
    }
}

/// The retry decision of a metadata script run, one try at a time.
pub fn retry_step(attempt: u32, outcome: RunOutcome) -> (res: RetryAction)
    requires
        attempt < MAX_RUN_ATTEMPTS,
    ensures
        res == spec_retry_step(attempt as int, outcome),
{
    match outcome {
        RunOutcome::Completed => RetryAction::Finish,
        RunOutcome::Failed => RetryAction::Fail,
        RunOutcome::Retryable => {
            if attempt + 1 < MAX_RUN_ATTEMPTS {
                RetryAction::RetryAfter {
                    next_attempt: attempt + 1,
                    min_ms: BACKOFF_FAST_MIN_MS,
                    max_ms: BACKOFF_FAST_MAX_MS,
                }
            } else {
                RetryAction::TooManyRetries
            }
        },
    }
}

/// A run is tried at most `MAX_RUN_ATTEMPTS` times: from any try, following
/// the retries that the decisions ask for, every try number stays below the
/// limit, and after a retryable failure of the last try the run gives up.
pub proof fn law_retries_are_bounded(attempt: int, outcome: RunOutcome)
    requires
        0 <= attempt < MAX_RUN_ATTEMPTS,
    ensures
        spec_retry_step(attempt, outcome) matches RetryAction::RetryAfter { next_attempt, .. } ==> attempt
            < next_attempt < MAX_RUN_ATTEMPTS && next_attempt == attempt + 1,
        attempt == MAX_RUN_ATTEMPTS - 1 && outcome is Retryable ==> spec_retry_step(attempt, outcome)
            is TooManyRetries,
{
}

/// Reading a user key back gives its path normalised: the segments of a user
/// key begin with the segments of its namespace, and the segments after
/// those, joined with `/` as `join_user_key` does, are the non-empty parts of
/// the path joined with `/`.
pub proof fn law_user_key_reads_back_normalised(cluster_prefix: Seq<char>, ns_prefix: Seq<char>, path: Seq<char>)
    ensures
        spec_user_key_path(cluster_prefix, ns_prefix, path).take(1 + nonempty_parts(ns_prefix).len() as int) == seq![
            cluster_prefix,
        ] + nonempty_parts(ns_prefix),
        crate::text::join_seq(
            spec_user_key_path(cluster_prefix, ns_prefix, path).skip(1 + nonempty_parts(ns_prefix).len() as int),
            '/',
        ) == crate::text::join_seq(nonempty_parts(path), '/'),
{
    let ns = seq![cluster_prefix] + nonempty_parts(ns_prefix);
    let full = spec_user_key_path(cluster_prefix, ns_prefix, path);
    assert(full.take(ns.len() as int) =~= ns);
    assert(full.skip(ns.len() as int) =~= nonempty_parts(path));
}

/// The check that a key asks for, whatever it writes: its expected value in
/// Base64, none for absence, or no check at all for `Any`.
pub open spec fn asked_check(path: Seq<u8>, check: TriStateCheck<Seq<u8>>) -> Option<(Seq<u8>, Option<Seq<char>>)> {
    match check {
        TriStateCheck::Value(x) => Some((path, Some(b64_text(x)))),
        TriStateCheck::Absent => Some((path, None)),
        TriStateCheck::Any => None,
    }
}

/// A compare-and-set checks every key as asked, whatever the key writes,
/// except a key written under a versionstamp (which is unique and needs no
/// check): the check list holds, in the order of the keys, one entry for
/// each key that is not a versionstamped write and whose check is not `Any`,
/// with its path and its expected value in Base64 (or none for `Absent`). So
/// two requests whose keys have the same paths and checks, and whose writes
/// are versionstamped for the same keys, send the same checks, whatever the
/// plain writes are.
pub proof fn law_checks_do_not_depend_on_writes(
    items: Seq<(Seq<u8>, TriStateCheck<Seq<u8>>, TriStateSet<Seq<u8>>)>,
    other: Seq<(Seq<u8>, TriStateCheck<Seq<u8>>, TriStateSet<Seq<u8>>)>,
)
    ensures
        spec_cas_lists(items).0 == items.fold_left(
            Seq::<(Seq<u8>, Option<Seq<char>>)>::empty(),
            |acc: Seq<(Seq<u8>, Option<Seq<char>>)>, it: (Seq<u8>, TriStateCheck<Seq<u8>>, TriStateSet<Seq<u8>>)|
                if it.2 is WithVersionstampedKey {
                    acc
                } else {
                    push_opt(acc, asked_check(it.0, it.1))
                },
        ),
        (other.len() == items.len() && forall|i: int|
            0 <= i < items.len() ==> (#[trigger] other[i]).0 == items[i].0 && other[i].1 == items[i].1 && (
            other[i].2 is WithVersionstampedKey <==> items[i].2 is WithVersionstampedKey)) ==> spec_cas_lists(other).0
            == spec_cas_lists(items).0,
    decreases items.len(),
{
    if items.len() > 0 {
        let d = items.drop_last();
        let od = other.drop_last();
        law_checks_do_not_depend_on_writes(d, od);
        if other.len() == items.len() && forall|i: int|
            0 <= i < items.len() ==> (#[trigger] other[i]).0 == items[i].0 && other[i].1 == items[i].1 && (
            other[i].2 is WithVersionstampedKey <==> items[i].2 is WithVersionstampedKey) {
            assert forall|i: int| 0 <= i < d.len() implies (#[trigger] od[i]).0 == d[i].0 && od[i].1 == d[i].1 && (
            od[i].2 is WithVersionstampedKey <==> d[i].2 is WithVersionstampedKey) by {
                assert(other[i] == od[i] && items[i] == d[i]);
            }
            assert(other.last() == other[other.len() - 1]);
        }
    }
}

} // verus!
