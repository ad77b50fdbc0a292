//! The metadata-service cluster configuration: a comma-separated list of
//! `name=path:prefix` entries.

use indexmap::IndexMap;
use vstd::prelude::*;
use crate::text::{
    chars_of, split_chars, split_once_chars, split_once_seq, split_seq, string_from_chars,
    trim_chars, trim_seq,
};

verus! {

/// `indexmap::IndexMap`.
#[verifier::external_type_specification]
#[verifier::external_body]
#[verifier::reject_recursive_types(K)]
#[verifier::reject_recursive_types(V)]
#[verifier::reject_recursive_types(S)]
pub struct ExIndexMap<K, V, S>(IndexMap<K, V, S>);

/// One cluster: where its database file is and the key prefix of its data.
#[derive(Clone, Debug)]
pub struct MdsClusterConfig {
    pub path: String,
    pub prefix: String,
}

/// The clusters by name, in the order the configuration first names them.
pub struct MdsConfig {
    pub clusters: IndexMap<String, MdsClusterConfig>,
}

/// Why a configuration string is refused; holds the offending entry, trimmed.
#[derive(Clone, Debug)]
pub enum MdsConfigError {
    /// An entry has `=` but no `:` after it.
    InvalidClusterEntry(String),
    /// An entry has no `=`.
    InvalidClusterConfig(String),
}

/// The entries of a cluster map in order: name, path, prefix.
pub uninterp spec fn cluster_entries(m: IndexMap<String, MdsClusterConfig>) -> Seq<(Seq<char>, Seq<char>, Seq<char>)>;

/// Where `name` stands among the entries, if it does.
pub open spec fn entry_index(e: Seq<(Seq<char>, Seq<char>, Seq<char>)>, name: Seq<char>) -> Option<nat>
    decreases e.len(),
{
    if e.len() == 0 {
        None
    } else if e.last().0 == name {
        Some((e.len() - 1) as nat)
    } else {
        entry_index(e.drop_last(), name)
    }
}

/// `IndexMap::insert`: an equal key keeps its place and takes the new value; a
/// new key goes last.
pub open spec fn insert_entry(
    e: Seq<(Seq<char>, Seq<char>, Seq<char>)>,
    name: Seq<char>,
    path: Seq<char>,
    prefix: Seq<char>,
) -> Seq<(Seq<char>, Seq<char>, Seq<char>)> {
    match entry_index(e, name) {
        Some(i) => e.update(i as int, (name, path, prefix)),
        None => e.push((name, path, prefix)),
    }
}

/// `IndexMap::new`: an empty map.
#[verifier::external_body]
fn cluster_map_new() -> (res: IndexMap<String, MdsClusterConfig>)
    ensures
        cluster_entries(res) == Seq::<(Seq<char>, Seq<char>, Seq<char>)>::empty(),
{
    IndexMap::new()
}

/// `IndexMap::insert`, with its documented order: a key equal to one already
/// present keeps its position and gets the new value; otherwise the entry is
/// appended.
#[verifier::external_body]
fn cluster_map_insert(m: &mut IndexMap<String, MdsClusterConfig>, name: String, config: MdsClusterConfig)
    ensures
        cluster_entries(*final(m)) == insert_entry(
            cluster_entries(*old(m)),
            name@,
            config.path@,
            config.prefix@,
        ),
{
    m.insert(name, config);
}

/// The result of parsing the entries in order: the first bad entry decides
/// the error (`true` for a missing `:`, `false` for a missing `=`).
pub open spec fn parse_entries(segs: Seq<Seq<char>>) -> Result<Seq<(Seq<char>, Seq<char>, Seq<char>)>, (bool, Seq<char>)>
    decreases segs.len(),
{
    if segs.len() == 0 {
        Ok(Seq::empty())
    } else {
        match parse_entries(segs.drop_last()) {
            Err(e) => Err(e),
            Ok(m) => {
                let seg = segs.last();
                let t = trim_seq(seg);
                match split_once_seq(trim_seq(t), '=') {
                    Some((name, entry)) => match split_once_seq(entry, ':') {
                        Some((path, prefix)) => Ok(insert_entry(m, name, path, prefix)),
                        None => Err((true, t)),
                    },
                    None => Err((false, t)),
                }
            },
        }
    }
}

/// Once a prefix of the entries fails, the whole fails the same way.
proof fn lemma_parse_error_sticks(segs: Seq<Seq<char>>, n: int)
    requires
        0 <= n <= segs.len(),
        parse_entries(segs.take(n)) is Err,
    ensures
        parse_entries(segs) == parse_entries(segs.take(n)),
    decreases segs.len(),
{
    if n == segs.len() {
        assert(segs.take(n) == segs);
    } else {
        assert(segs.drop_last().take(n) == segs.take(n));
        lemma_parse_error_sticks(segs.drop_last(), n);
    }
}

/// The result of parsing a whole configuration string.
pub open spec fn spec_parse_config(input: Seq<char>) -> Result<Seq<(Seq<char>, Seq<char>, Seq<char>)>, (bool, Seq<char>)> {
    parse_entries(split_seq(input, ','))
}

/// The view of an error: whether `:` was missing, and the entry.
pub open spec fn error_view(e: MdsConfigError) -> (bool, Seq<char>) {
    match e {
        MdsConfigError::InvalidClusterEntry(s) => (true, s@),
        MdsConfigError::InvalidClusterConfig(s) => (false, s@),
    }
}

impl MdsConfig {
    /// Parses `name=path:prefix,name=path:prefix,...`; each entry is trimmed,
    /// and a later entry for the same name replaces the earlier one in place.
    pub fn parse(input: &str) -> (res: Result<MdsConfig, MdsConfigError>)
        ensures
            match spec_parse_config(input@) {
                Ok(e) => res matches Ok(c) && cluster_entries(c.clusters) == e,
                Err(e) => res matches Err(x) && error_view(x) == e,
            },
    {
        let c = chars_of(input);
        let segs = split_chars(c.as_slice(), ',');
        let ghost sp = split_seq(input@, ',');
        let mut clusters = cluster_map_new();
        let mut i: usize = 0;
        while i < segs.len()
            invariant
                i <= segs.len(),
                sp == split_seq(input@, ','),
                segs@.len() == sp.len(),
                forall|j: int| 0 <= j < segs@.len() ==> #[trigger] segs@[j]@ == sp[j],
                parse_entries(sp.take(i as int)) == Ok::<Seq<(Seq<char>, Seq<char>, Seq<char>)>, (bool, Seq<char>)>(
                    cluster_entries(clusters),
                ),
            decreases segs.len() - i,
        {
            proof {
                assert(sp.take(i + 1).drop_last() == sp.take(i as int));
                assert(sp.take(i + 1).last() == sp[i as int]);
            }
            let seg = trim_chars(segs[i].as_slice());
            let seg2 = trim_chars(seg.as_slice());
            match split_once_chars(seg2.as_slice(), '=') {
                Some((name, entry)) => match split_once_chars(entry.as_slice(), ':') {
                    Some((path, prefix)) => {
                        let config = MdsClusterConfig {
                            path: string_from_chars(path.as_slice()),
                            prefix: string_from_chars(prefix.as_slice()),
                        };
                        cluster_map_insert(&mut clusters, string_from_chars(name.as_slice()), config);
                    },
                    None => {
                        proof {
                            lemma_parse_error_sticks(sp, i + 1);
                        }
                        return Err(MdsConfigError::InvalidClusterEntry(string_from_chars(seg.as_slice())));
                    },
                },
                None => {
                    proof {
                        lemma_parse_error_sticks(sp, i + 1);
                    }
                    return Err(MdsConfigError::InvalidClusterConfig(string_from_chars(seg.as_slice())));
                },
            }
            i += 1;
        }
        proof {
            assert(sp.take(sp.len() as int) == sp);
        }
        Ok(MdsConfig { clusters })
    }
}

} // verus!
