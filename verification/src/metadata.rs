//! An application's metadata: its environment and the MySQL databases, APNs
//! clients, key-value namespaces and pub/sub namespaces it may use, each known
//! by a name; and the bootstrap data that a fresh script context receives.

use vstd::prelude::*;
use crate::text::str_eq;

verus! {

/// The APNs service a client talks to.
#[derive(Debug, Clone, Copy, PartialEq, Eq, Structural)]
pub enum ApnsEndpointMetadata {
    Production,
    Sandbox,
}

/// A MySQL database: its URL, and the root certificate to trust (`default`
/// for the bundled ones).
#[derive(Debug, Clone)]
pub struct MysqlMetadata {
    pub url: String,
    pub root_certificate: Option<String>,
}

/// An APNs client: its endpoint and its certificate bundle.
#[derive(Debug, Clone)]
pub struct ApnsMetadata {
    pub endpoint: ApnsEndpointMetadata,
    pub cert: Vec<u8>,
}

/// A key-value namespace: the shard it lives on and its key prefix.
#[derive(Debug, Clone)]
pub struct KvNamespaceMetadata {
    pub shard: String,
    pub prefix: String,
    pub raw: bool,
}

/// A pub/sub namespace: its hex-encoded 16-byte name, and those bytes.
#[derive(Debug, Clone)]
pub struct PubsubMetadata {
    pub namespace: String,
    pub namespace_bytes: [u8; 16],
}

/// The metadata of an application. Each list is keyed by name, as a map.
#[derive(Debug, Clone)]
pub struct Metadata {
    pub path: String,
    pub version: String,
    pub package: String,
    pub env: Vec<(String, String)>,
    pub mysql: Vec<(String, MysqlMetadata)>,
    pub apns: Vec<(String, ApnsMetadata)>,
    pub kv_namespaces: Vec<(String, KvNamespaceMetadata)>,
    pub pubsub: Vec<(String, PubsubMetadata)>,
}

/// The names of a keyed list, in order.
pub open spec fn names_of<T>(entries: Seq<(String, T)>) -> Seq<Seq<char>> {
    entries.map_values(|e: (String, T)| e.0@)
}

/// Whether no name occurs twice in a keyed list.
pub open spec fn unique_names<T>(entries: Seq<(String, T)>) -> bool {
    forall|i: int, j: int| 0 <= i < j < entries.len() ==> (#[trigger] entries[i]).0@ != (#[trigger] entries[j]).0@
}

impl Metadata {
    /// Every keyed list names each entry once, as the maps it is read from do.
    pub open spec fn wf(&self) -> bool {
        &&& unique_names(self.env@)
        &&& unique_names(self.mysql@)
        &&& unique_names(self.apns@)
        &&& unique_names(self.kv_namespaces@)
        &&& unique_names(self.pubsub@)
    }
}

/// The position of the entry with a name, if any.
pub open spec fn position_of<T>(entries: Seq<(String, T)>, name: Seq<char>) -> Option<int> {
    if exists|i: int| 0 <= i < entries.len() && (#[trigger] entries[i]).0@ == name {
        Some(choose|i: int| 0 <= i < entries.len() && (#[trigger] entries[i]).0@ == name)
    } else {
        None
    }
}

/// Finds the entry with a name in a keyed list.
fn find_entry<'a, T>(entries: &'a Vec<(String, T)>, name: &str) -> (res: Option<&'a T>)
    requires
        unique_names(entries@),
    ensures
        match position_of(entries@, name@) {
            Some(i) => res == Some(&entries@[i].1),
            None => res is None,
        },
{
    let mut i: usize = 0;
    while i < entries.len()
        invariant
            i <= entries.len(),
            unique_names(entries@),
            forall|j: int| 0 <= j < i ==> (#[trigger] entries@[j]).0@ != name@,
        decreases entries.len() - i,
    {
        if str_eq(entries[i].0.as_str(), name) {
            proof {
                let k = choose|k: int| 0 <= k < entries@.len() && (#[trigger] entries@[k]).0@ == name@;
                assert(entries@[i as int].0@ == name@);
                if k != i {
                    if k < i {
                        assert(entries@[k].0@ != entries@[i as int].0@);
                    } else {
                        assert(entries@[i as int].0@ != entries@[k].0@);
                    }
                }
            }
            return Some(&entries[i].1);
        }
        i += 1;
    }
    None
}

impl Metadata {
    /// The key-value namespace with a name.
    pub fn kv_namespace(&self, name: &str) -> (res: Option<&KvNamespaceMetadata>)
        requires
            self.wf(),
        ensures
            match position_of(self.kv_namespaces@, name@) {
                Some(i) => res == Some(&self.kv_namespaces@[i].1),
                None => res is None,
            },
    {
        find_entry(&self.kv_namespaces, name)
    }

    /// The pub/sub namespace with a name.
    pub fn pubsub_namespace(&self, name: &str) -> (res: Option<&PubsubMetadata>)
        requires
            self.wf(),
        ensures
            match position_of(self.pubsub@, name@) {
                Some(i) => res == Some(&self.pubsub@[i].1),
                None => res is None,
            },
    {
        find_entry(&self.pubsub, name)
    }

    /// The MySQL database with a name.
    pub fn mysql_database(&self, name: &str) -> (res: Option<&MysqlMetadata>)
        requires
            self.wf(),
        ensures
            match position_of(self.mysql@, name@) {
                Some(i) => res == Some(&self.mysql@[i].1),
                None => res is None,
            },
    {
        find_entry(&self.mysql, name)
    }
}

/// What a fresh script context is told about its application: the names of
/// its MySQL databases and APNs clients, and its environment.
#[derive(Debug, Clone)]
pub struct BlueboatBootstrapData {
    pub mysql: Vec<String>,
    pub apns: Vec<String>,
    pub env: Vec<(String, String)>,
}

/// The names of a keyed list.
fn names<T>(entries: &Vec<(String, T)>) -> (res: Vec<String>)
    ensures
        res@.map_values(|s: String| s@) == names_of(entries@),
{
    let mut out: Vec<String> = Vec::new();
    let mut i: usize = 0;
    while i < entries.len()
        invariant
            i <= entries.len(),
            out@.map_values(|s: String| s@) == names_of(entries@.take(i as int)),
        decreases entries.len() - i,
    {
        let ghost before = out@;
        out.push(entries[i].0.clone());
        proof {
            assert(out@.map_values(|s: String| s@) =~= before.map_values(|s: String| s@).push(entries@[i as int].0@));
            assert(names_of(entries@.take(i + 1)) =~= names_of(entries@.take(i as int)).push(entries@[i as int].0@));
        }
        i += 1;
    }
    proof {
        assert(entries@.take(entries@.len() as int) =~= entries@);
    }
    out
}

/// The view of an environment.
pub open spec fn env_view(env: Seq<(String, String)>) -> Seq<(Seq<char>, Seq<char>)> {
    env.map_values(|e: (String, String)| (e.0@, e.1@))
}

/// A copy of an environment.
fn copy_env(env: &Vec<(String, String)>) -> (res: Vec<(String, String)>)
    ensures
        env_view(res@) == env_view(env@),
{
    let mut out: Vec<(String, String)> = Vec::new();
    let mut i: usize = 0;
    while i < env.len()
        invariant
            i <= env.len(),
            env_view(out@) == env_view(env@.take(i as int)),
        decreases env.len() - i,
    {
        let ghost before = out@;
        out.push((env[i].0.clone(), env[i].1.clone()));
        proof {
            assert(env_view(out@) =~= env_view(before).push((env@[i as int].0@, env@[i as int].1@)));
            assert(env_view(env@.take(i + 1)) =~= env_view(env@.take(i as int)).push(
                (env@[i as int].0@, env@[i as int].1@),
            ));
        }
        i += 1;
    }
    proof {
        assert(env@.take(env@.len() as int) =~= env@);
    }
    out
}

/// The bootstrap data of an application.
pub fn bootstrap_data(md: &Metadata) -> (res: BlueboatBootstrapData)
    ensures
        res.mysql@.map_values(|s: String| s@) == names_of(md.mysql@),
        res.apns@.map_values(|s: String| s@) == names_of(md.apns@),
        env_view(res.env@) == env_view(md.env@),
{
    BlueboatBootstrapData { mysql: names(&md.mysql), apns: names(&md.apns), env: copy_env(&md.env) }
}

/// The root certificates a MySQL connection trusts.
#[derive(Debug, Clone)]
pub enum RootCertChoice {
    /// The driver's defaults.
    Default,
    /// The certificates bundled with the runtime.
    Bundled,
    /// The PEM text the application gives.
    Pem(Vec<u8>),
}

/// Why a MySQL database of an application is not opened.
#[derive(Debug, Clone, Copy, PartialEq, Eq, Structural)]
pub enum MysqlConfigError {
    /// The URL names a local socket or a root certificate file.
    DisallowedKeys,
}

/// How a MySQL database is opened, from what its URL sets (a local socket, a
/// root certificate path) and its `root_certificate`: a URL with a socket or
/// a certificate path is refused; `default` selects the bundled
/// certificates, other text is PEM; none keeps the driver's defaults.
pub fn mysql_root_cert(has_socket: bool, has_root_cert_path: bool, root_certificate: &Option<String>) -> (res: Result<
    RootCertChoice,
    MysqlConfigError,
>)
    ensures
        (has_socket || has_root_cert_path) ==> res == Err::<RootCertChoice, MysqlConfigError>(
            MysqlConfigError::DisallowedKeys,
        ),
        !(has_socket || has_root_cert_path) ==> match root_certificate {
            None => res matches Ok(RootCertChoice::Default),
            Some(c) => if c@ == "default"@ {
                res matches Ok(RootCertChoice::Bundled)
            } else {
                res matches Ok(RootCertChoice::Pem(p)) && p@ == vstd::utf8::encode_utf8(c@)
            },
        },
{
    if has_socket || has_root_cert_path {
        return Err(MysqlConfigError::DisallowedKeys);
    }
    match root_certificate {
        None => Ok(RootCertChoice::Default),
        Some(c) => {
            if str_eq(c.as_str(), "default") {
                Ok(RootCertChoice::Bundled)
            } else {
                let b = c.as_str().as_bytes();
                let mut v: Vec<u8> = Vec::new();
                let mut i: usize = 0;
                while i < b.len()
                    invariant
                        i <= b@.len(),
                        v@ == b@.take(i as int),
                    decreases b@.len() - i,
                {
                    v.push(b[i]);
                    proof {
                        assert(b@.take(i + 1) =~= b@.take(i as int).push(b@[i as int]));
                    }
                    i += 1;
                }
                proof {
                    assert(b@.take(b@.len() as int) =~= b@);
                }
                Ok(RootCertChoice::Pem(v))
            }
        },
    }
}

} // verus!
