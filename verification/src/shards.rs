//! The metadata service's shard table: how a fresh listing of shard
//! configurations changes the servers of each shard, which server a session
//! uses, and the store name of a server URL.

use vstd::prelude::*;
use crate::text::{chars_of, str_eq, string_from_chars};

verus! {

/// A server of a shard, by its URL.
#[derive(Debug, Clone)]
pub struct ServerConfig {
    pub url: String,
}

/// The servers of a shard.
#[derive(Debug, Clone)]
pub struct RegionConfig {
    pub servers: Vec<ServerConfig>,
}

/// The last position of a URL among servers' URLs, if any: a map from URL to
/// server built from the list keeps the last server of a URL.
pub open spec fn last_index_of_url(cur: Seq<Seq<char>>, u: Seq<char>) -> Option<int>
    decreases cur.len(),
{
    if cur.len() == 0 {
        None
    } else if cur.last() == u {
        Some(cur.len() - 1)
    } else {
        last_index_of_url(cur.drop_last(), u)
    }
}

/// The scan that keeps servers a shard already has: from `index` on, a
/// configured URL that a current server has is taken out of the list (the
/// last URL takes its place) and that server is kept; other URLs stay. The
/// result is the kept servers' positions, in order, and the URLs left to
/// connect to.
pub open spec fn reuse_scan(cfg: Seq<Seq<char>>, index: int, cur: Seq<Seq<char>>) -> (Seq<int>, Seq<Seq<char>>)
    decreases cfg.len() - index,
{
    if index < 0 || index >= cfg.len() {
        (Seq::empty(), cfg)
    } else {
        match last_index_of_url(cur, cfg[index]) {
            Some(j) => {
                let next = cfg.update(index, cfg.last()).drop_last();
                let (r, rest) = reuse_scan(next, index, cur);
                (seq![j] + r, rest)
            },
            None => reuse_scan(cfg, index + 1, cur),
        }
    }
}

/// The first position of a shard name among the current shards, if any.
pub open spec fn shard_position(current: Seq<(Seq<char>, Seq<Seq<char>>)>, name: Seq<char>) -> Option<int>
    decreases current.len(),
{
    if current.len() == 0 {
        None
    } else {
        match shard_position(current.drop_last(), name) {
            Some(p) => Some(p),
            None => if current.last().0 == name {
                Some(current.len() - 1)
            } else {
                None
            },
        }
    }
}

/// What a listed shard configuration does to the shard of that name: nothing
/// when the shard has exactly the configured set of URLs; else the shard is
/// rebuilt from the servers it keeps and new connections to the other URLs.
pub open spec fn shard_change(current: Seq<(Seq<char>, Seq<Seq<char>>)>, name: Seq<char>, cfg: Seq<Seq<char>>) -> Option<(Seq<int>, Seq<Seq<char>>)> {
    match shard_position(current, name) {
        Some(p) => if current[p].1.to_set() == cfg.to_set() {
            None
        } else {
            Some(reuse_scan(cfg, 0, current[p].1))
        },
        None => Some((Seq::empty(), cfg)),
    }
}

/// The changes of a listing, in its order: configurations that could not be
/// read, and shards that stay as they are, give none.
pub open spec fn spec_shard_updates(
    current: Seq<(Seq<char>, Seq<Seq<char>>)>,
    listed: Seq<(Seq<char>, Option<Seq<Seq<char>>>)>,
) -> Seq<(Seq<char>, Seq<int>, Seq<Seq<char>>)>
    decreases listed.len(),
{
    if listed.len() == 0 {
        Seq::empty()
    } else {
        let prev = spec_shard_updates(current, listed.drop_last());
        let (name, cfg) = listed.last();
        match cfg {
            None => prev,
            Some(c) => match shard_change(current, name, c) {
                None => prev,
                Some((r, n)) => prev.push((name, r, n)),
            },
        }
    }
}

/// The current shards that the listing no longer names, in order.
pub open spec fn spec_removed_shards(
    current: Seq<(Seq<char>, Seq<Seq<char>>)>,
    listed: Seq<(Seq<char>, Option<Seq<Seq<char>>>)>,
) -> Seq<Seq<char>>
    decreases current.len(),
{
    if current.len() == 0 {
        Seq::empty()
    } else {
        let prev = spec_removed_shards(current.drop_last(), listed);
        let name = current.last().0;
        if exists|i: int| 0 <= i < listed.len() && (#[trigger] listed[i]).0 == name {
            prev
        } else {
            prev.push(name)
        }
    }
}

/// A change to one shard: the positions of the current servers it keeps, in
/// order, and the URLs to connect to after them.
#[derive(Debug, Clone)]
pub struct ShardUpdate {
    pub name: String,
    pub reuse: Vec<usize>,
    pub connect: Vec<String>,
}

/// What a listing of shard configurations does to the shard table.
#[derive(Debug, Clone)]
pub struct ShardPlan {
    pub removed: Vec<String>,
    pub updates: Vec<ShardUpdate>,
}

/// The view of a list of strings.
pub open spec fn texts(v: Seq<String>) -> Seq<Seq<char>> {
    v.map_values(|s: String| s@)
}

/// The view of the current shards: name and server URLs.
pub open spec fn current_view(c: Seq<(String, Vec<String>)>) -> Seq<(Seq<char>, Seq<Seq<char>>)> {
    c.map_values(|e: (String, Vec<String>)| (e.0@, texts(e.1@)))
}

/// The view of a listing: name and, when it could be read, server URLs.
pub open spec fn listed_view(l: Seq<(String, Option<RegionConfig>)>) -> Seq<(Seq<char>, Option<Seq<Seq<char>>>)> {
    l.map_values(
        |e: (String, Option<RegionConfig>)|
            (e.0@, match e.1 {
                Some(r) => Some(r.servers@.map_values(|s: ServerConfig| s.url@)),
                None => None,
            }),
    )
}

/// The view of an update.
pub open spec fn update_view(u: ShardUpdate) -> (Seq<char>, Seq<int>, Seq<Seq<char>>) {
    (u.name@, u.reuse@.map_values(|x: usize| x as int), texts(u.connect@))
}

/// The position of the last string equal to `u`, if any.
fn last_index_of(cur: &Vec<String>, u: &str) -> (res: Option<usize>)
    ensures
        match res {
            Some(j) => last_index_of_url(texts(cur@), u@) == Some(j as int) && j < cur@.len(),
            None => last_index_of_url(texts(cur@), u@) is None,
        },
{
    let ghost t = texts(cur@);
    let mut i: usize = cur.len();
    proof {
        assert(t.take(cur@.len() as int) =~= t);
    }
    while i > 0
        invariant
            i <= cur@.len(),
            t == texts(cur@),
            last_index_of_url(t, u@) == last_index_of_url(t.take(i as int), u@),
        decreases i,
    {
        proof {
            assert(t.take(i as int).drop_last() =~= t.take(i - 1));
        }
        if str_eq(cur[i - 1].as_str(), u) {
            proof {
                assert(t.take(i as int).last() == u@);
            }
            return Some(i - 1);
        }
        i -= 1;
    }
    proof {
        assert(t.take(0) =~= Seq::<Seq<char>>::empty());
    }
    None
}

/// Whether every string of `a` is among `b`.
fn all_among(a: &Vec<String>, b: &Vec<String>) -> (res: bool)
    ensures
        res == (forall|i: int| 0 <= i < a@.len() ==> texts(b@).contains(#[trigger] a@[i]@)),
{
    let mut i: usize = 0;
    while i < a.len()
        invariant
            i <= a@.len(),
            forall|k: int| 0 <= k < i ==> texts(b@).contains(#[trigger] a@[k]@),
        decreases a@.len() - i,
    {
        match last_index_of(b, a[i].as_str()) {
            Some(j) => {
                proof {
                    lemma_last_index_of_url(texts(b@), a@[i as int]@);
                    assert(texts(b@)[j as int] == a@[i as int]@);
                }
            },
            None => {
                proof {
                    lemma_last_index_of_url(texts(b@), a@[i as int]@);
                }
                return false;
            },
        }
        i += 1;
    }
    true
}

proof fn lemma_last_index_of_url(cur: Seq<Seq<char>>, u: Seq<char>)
    ensures
        last_index_of_url(cur, u) is None <==> !cur.contains(u),
        last_index_of_url(cur, u) matches Some(j) ==> 0 <= j < cur.len() && cur[j] == u,
    decreases cur.len(),
{
    if cur.len() > 0 {
        lemma_last_index_of_url(cur.drop_last(), u);
        if cur.last() != u {
            if cur.contains(u) {
                let k = choose|k: int| 0 <= k < cur.len() && cur[k] == u;
                assert(cur.drop_last()[k] == u);
            }
            if cur.drop_last().contains(u) {
                let k = choose|k: int| 0 <= k < cur.drop_last().len() && cur.drop_last()[k] == u;
                assert(cur[k] == u);
            }
        } else {
            assert(cur[cur.len() - 1] == u);
        }
    }
}

/// Whether two URL lists hold the same set of URLs.
fn same_url_set(a: &Vec<String>, b: &Vec<String>) -> (res: bool)
    ensures
        res == (texts(a@).to_set() == texts(b@).to_set()),
{
    let x = all_among(a, b);
    let y = all_among(b, a);
    proof {
        let ta = texts(a@);
        let tb = texts(b@);
        if x && y {
            assert forall|s: Seq<char>| ta.to_set().contains(s) <==> tb.to_set().contains(s) by {
                if ta.contains(s) {
                    let k = choose|k: int| 0 <= k < ta.len() && ta[k] == s;
                    assert(tb.contains(a@[k]@));
                }
                if tb.contains(s) {
                    let k = choose|k: int| 0 <= k < tb.len() && tb[k] == s;
                    assert(ta.contains(b@[k]@));
                }
            }
            assert(ta.to_set() =~= tb.to_set());
        } else if !x {
            let k = choose|k: int| 0 <= k < a@.len() && !tb.contains(#[trigger] a@[k]@);
            assert(ta[k] == a@[k]@);
            assert(ta.to_set().contains(ta[k]));
            assert(!tb.to_set().contains(ta[k]));
        } else {
            let k = choose|k: int| 0 <= k < b@.len() && !ta.contains(#[trigger] b@[k]@);
            assert(tb[k] == b@[k]@);
            assert(tb.to_set().contains(tb[k]));
            assert(!ta.to_set().contains(tb[k]));
        }
    }
    x && y
}

/// The scan that keeps the servers a shard already has (see `reuse_scan`).
fn scan_reuse(cfg: Vec<String>, cur: &Vec<String>) -> (res: (Vec<usize>, Vec<String>))
    ensures
        (res.0@.map_values(|x: usize| x as int), texts(res.1@)) == reuse_scan(texts(cfg@), 0, texts(cur@)),
{
    let ghost c0 = texts(cfg@);
    let ghost cv = texts(cur@);
    let mut cfg = cfg;
    let mut reused: Vec<usize> = Vec::new();
    let mut index: usize = 0;
    proof {
        assert(reused@.map_values(|x: usize| x as int) =~= Seq::<int>::empty());
    }
    while index < cfg.len()
        invariant
            index <= cfg@.len(),
            cv == texts(cur@),
            ({
                let (r, rest) = reuse_scan(texts(cfg@), index as int, cv);
                reuse_scan(c0, 0, cv) == (reused@.map_values(|x: usize| x as int) + r, rest)
            }),
        decreases cfg@.len() - index,
    {
        let ghost before = texts(cfg@);
        proof {
            assert(before[index as int] == cfg@[index as int]@);
        }
        match last_index_of(cur, cfg[index].as_str()) {
            Some(j) => {
                let ghost rb = reused@.map_values(|x: usize| x as int);
                proof {
                    lemma_last_index_of_url(cv, before[index as int]);
                    assert(last_index_of_url(cv, before[index as int]) == Some(j as int));
                }
                cfg.swap_remove(index);
                reused.push(j);
                proof {
                    assert(texts(cfg@) =~= before.update(index as int, before.last()).drop_last());
                    assert(reused@.map_values(|x: usize| x as int) =~= rb.push(j as int));
                    let (r, rest) = reuse_scan(texts(cfg@), index as int, cv);
                    assert(reuse_scan(before, index as int, cv) == (seq![j as int] + r, rest));
                    assert(rb + (seq![j as int] + r) =~= rb.push(j as int) + r);
                }
            },
            None => {
                proof {
                    assert(reuse_scan(before, index as int, cv) == reuse_scan(before, index + 1, cv));
                }
                index += 1;
            },
        }
    }
    proof {
        let r0 = reused@.map_values(|x: usize| x as int);
        assert(r0 + Seq::<int>::empty() =~= r0);
    }
    (reused, cfg)
}

/// The URLs of a shard configuration.
fn config_urls(r: &RegionConfig) -> (res: Vec<String>)
    ensures
        texts(res@) == r.servers@.map_values(|s: ServerConfig| s.url@),
{
    let mut out: Vec<String> = Vec::new();
    let mut i: usize = 0;
    while i < r.servers.len()
        invariant
            i <= r.servers@.len(),
            texts(out@) == r.servers@.take(i as int).map_values(|s: ServerConfig| s.url@),
        decreases r.servers@.len() - i,
    {
        let ghost before = texts(out@);
        out.push(r.servers[i].url.clone());
        proof {
            assert(texts(out@) =~= before.push(r.servers@[i as int].url@));
            assert(r.servers@.take(i + 1).map_values(|s: ServerConfig| s.url@) =~= r.servers@.take(i as int).map_values(
                |s: ServerConfig| s.url@,
            ).push(r.servers@[i as int].url@));
        }
        i += 1;
    }
    proof {
        assert(r.servers@.take(r.servers@.len() as int) =~= r.servers@);
    }
    out
}

/// The position of a shard by name.
fn find_shard(current: &Vec<(String, Vec<String>)>, name: &str) -> (res: Option<usize>)
    ensures
        match res {
            Some(p) => shard_position(current_view(current@), name@) == Some(p as int) && p < current@.len(),
            None => shard_position(current_view(current@), name@) is None,
        },
{
    let ghost cv = current_view(current@);
    let mut i: usize = 0;
    while i < current.len()
        invariant
            i <= current@.len(),
            cv == current_view(current@),
            shard_position(cv.take(i as int), name@) is None,
        decreases current@.len() - i,
    {
        proof {
            assert(cv.take(i + 1).drop_last() =~= cv.take(i as int));
        }
        if str_eq(current[i].0.as_str(), name) {
            proof {
                assert(shard_position(cv.take(i + 1), name@) == Some(i as int));
                lemma_shard_position_prefix(cv, i + 1);
            }
            return Some(i);
        }
        i += 1;
    }
    proof {
        assert(cv.take(current@.len() as int) =~= cv);
    }
    None
}

proof fn lemma_shard_position_prefix(cv: Seq<(Seq<char>, Seq<Seq<char>>)>, n: int)
    requires
        0 <= n <= cv.len(),
        shard_position(cv.take(n), cv[n - 1].0) is Some,
    ensures
        shard_position(cv, cv[n - 1].0) == shard_position(cv.take(n), cv[n - 1].0),
    decreases cv.len(),
{
    if n < cv.len() {
        assert(cv.drop_last().take(n) =~= cv.take(n));
        assert(cv.drop_last()[n - 1] == cv[n - 1]);
        lemma_shard_position_prefix(cv.drop_last(), n);
    } else {
        assert(cv.take(n) =~= cv);
    }
}

/// Plans the refresh of the shard table from a listing of shard
/// configurations (`None` where a configuration could not be read): the
/// current shards the listing no longer names are removed; each readable
/// configuration, in order, rebuilds its shard unless the shard already has
/// exactly the configured URLs. A rebuilt shard keeps the current servers
/// whose URLs stay configured and connects to the other URLs.
pub fn plan_shard_refresh(current: &Vec<(String, Vec<String>)>, listed: &Vec<(String, Option<RegionConfig>)>) -> (res: ShardPlan)
    ensures
        texts(res.removed@) == spec_removed_shards(current_view(current@), listed_view(listed@)),
        res.updates@.map_values(|u: ShardUpdate| update_view(u)) == spec_shard_updates(
            current_view(current@),
            listed_view(listed@),
        ),
{
    let ghost cv = current_view(current@);
    let ghost lv = listed_view(listed@);
    let mut removed: Vec<String> = Vec::new();
    let mut i: usize = 0;
    while i < current.len()
        invariant
            i <= current@.len(),
            cv == current_view(current@),
            lv == listed_view(listed@),
            texts(removed@) == spec_removed_shards(cv.take(i as int), lv),
        decreases current@.len() - i,
    {
        proof {
            assert(cv.take(i + 1).drop_last() =~= cv.take(i as int));
        }
        let name = current[i].0.as_str();
        let mut found = false;
        let mut k: usize = 0;
        while k < listed.len()
            invariant
                k <= listed@.len(),
                lv == listed_view(listed@),
                found ==> exists|q: int| 0 <= q < listed@.len() && (#[trigger] lv[q]).0 == name@,
                !found ==> forall|q: int| 0 <= q < k ==> (#[trigger] lv[q]).0 != name@,
            decreases listed@.len() - k,
        {
            if str_eq(listed[k].0.as_str(), name) {
                found = true;
                proof {
                    assert(lv[k as int].0 == name@);
                }
            }
            k += 1;
        }
        if !found {
            let ghost before = texts(removed@);
            removed.push(current[i].0.clone());
            proof {
                assert(texts(removed@) =~= before.push(name@));
            }
        }
        i += 1;
    }
    proof {
        assert(cv.take(current@.len() as int) =~= cv);
    }
    let mut updates: Vec<ShardUpdate> = Vec::new();
    proof {
        assert(lv.take(0) =~= Seq::<(Seq<char>, Option<Seq<Seq<char>>>)>::empty());
        assert(updates@.map_values(|u: ShardUpdate| update_view(u)) =~= Seq::<(Seq<char>, Seq<int>, Seq<Seq<char>>)>::empty());
    }
    let mut j: usize = 0;
    while j < listed.len()
        invariant
            j <= listed@.len(),
            cv == current_view(current@),
            lv == listed_view(listed@),
            updates@.map_values(|u: ShardUpdate| update_view(u)) == spec_shard_updates(cv, lv.take(j as int)),
        decreases listed@.len() - j,
    {
        proof {
            assert(lv.take(j + 1).drop_last() =~= lv.take(j as int));
            assert(lv.take(j + 1).last() == lv[j as int]);
        }
        let ghost before = updates@.map_values(|u: ShardUpdate| update_view(u));
        match &listed[j].1 {
            None => {
                proof {
                    assert(lv[j as int].1 is None);
                }
            },
            Some(r) => {
                let cfg = config_urls(r);
                let name = listed[j].0.as_str();
                proof {
                    assert(lv[j as int].1 == Some(texts(cfg@)));
                    assert(lv[j as int].0 == name@);
                }
                match find_shard(current, name) {
                    Some(p) => {
                        proof {
                            assert(cv[p as int].1 == texts(current@[p as int].1@));
                            assert(shard_position(cv, name@) == Some(p as int));
                        }
                        if !same_url_set(&current[p].1, &cfg) {
                            let (reuse, connect) = scan_reuse(cfg, &current[p].1);
                            let u = ShardUpdate { name: listed[j].0.clone(), reuse, connect };
                            let ghost uv = update_view(u);
                            updates.push(u);
                            proof {
                                assert(updates@.map_values(|u: ShardUpdate| update_view(u)) =~= before.push(uv));
                            }
                        }
                    },
                    None => {
                        let u = ShardUpdate { name: listed[j].0.clone(), reuse: Vec::new(), connect: cfg };
                        let ghost uv = update_view(u);
                        updates.push(u);
                        proof {
                            assert(u.reuse@.map_values(|x: usize| x as int) =~= Seq::<int>::empty());
                            assert(updates@.map_values(|u: ShardUpdate| update_view(u)) =~= before.push(uv));
                        }
                    },
                }
            },
        }
        j += 1;
    }
    proof {
        assert(lv.take(listed@.len() as int) =~= lv);
    }
    ShardPlan { removed, updates }
}

/// Chooses the server for a shard session, among the shard's servers in the
/// (shuffled) order given, each given as whether it is broken and its region:
/// the first working one in the local region, else the first working one.
pub fn choose_server(servers: &Vec<(bool, String)>, local_region: &str) -> (res: Option<usize>)
    ensures
        match res {
            Some(i) => {
                &&& i < servers@.len()
                &&& !servers@[i as int].0
                &&& (exists|k: int| 0 <= k < servers@.len() && !(#[trigger] servers@[k]).0 && servers@[k].1@ == local_region@)
                    ==> servers@[i as int].1@ == local_region@ && forall|k: int|
                    0 <= k < i ==> !(!(#[trigger] servers@[k]).0 && servers@[k].1@ == local_region@)
                &&& !(exists|k: int| 0 <= k < servers@.len() && !(#[trigger] servers@[k]).0 && servers@[k].1@ == local_region@)
                    ==> forall|k: int| 0 <= k < i ==> (#[trigger] servers@[k]).0
            },
            None => forall|k: int| 0 <= k < servers@.len() ==> (#[trigger] servers@[k]).0,
        },
{
    let mut i: usize = 0;
    while i < servers.len()
        invariant
            i <= servers@.len(),
            forall|k: int| 0 <= k < i ==> !(!(#[trigger] servers@[k]).0 && servers@[k].1@ == local_region@),
        decreases servers@.len() - i,
    {
        if !servers[i].0 && str_eq(servers[i].1.as_str(), local_region) {
            return Some(i);
        }
        i += 1;
    }
    let mut j: usize = 0;
    while j < servers.len()
        invariant
            j <= servers@.len(),
            forall|k: int| 0 <= k < servers@.len() ==> !(!(#[trigger] servers@[k]).0 && servers@[k].1@ == local_region@),
            forall|k: int| 0 <= k < j ==> (#[trigger] servers@[k]).0,
        decreases servers@.len() - j,
    {
        if !servers[j].0 {
            return Some(j);
        }
        j += 1;
    }
    None
}

/// Why a server URL is refused.
#[derive(Debug, Clone, Copy, PartialEq, Eq, Structural)]
pub enum StoreNameError {
    /// The URL's path names more than one level.
    InvalidStoreName,
}

/// The store a server URL's path names: the path without its leading `/`
/// (empty when it has none); a path with another `/` is refused.
pub open spec fn spec_store_name(path: Seq<char>) -> Result<Seq<char>, StoreNameError> {
    let store = if path.len() > 0 && path[0] == '/' {
        path.skip(1)
    } else {
        Seq::empty()
    };
    if store.contains('/') {
        Err(StoreNameError::InvalidStoreName)
    } else {
        Ok(store)
    }
}

/// The store name of a server URL, given the URL's path.
pub fn store_name(path: &str) -> (res: Result<String, StoreNameError>)
    ensures
        match spec_store_name(path@) {
            Ok(s) => res matches Ok(r) && r@ == s,
            Err(e) => res == Err::<String, StoreNameError>(e),
        },
{
    let c = chars_of(path);
    let mut store: Vec<char> = Vec::new();
    if c.len() > 0 && c[0] == '/' {
        let mut i: usize = 1;
        while i < c.len()
            invariant
                1 <= i <= c@.len(),
                c@ == path@,
                c@[0] == '/',
                store@ == c@.subrange(1, i as int),
                forall|k: int| 0 <= k < store@.len() ==> store@[k] != '/',
            decreases c@.len() - i,
        {
            if c[i] == '/' {
                proof {
                    assert(c@.skip(1)[i - 1] == '/');
                    assert(c@.skip(1).contains('/'));
                }
                return Err(StoreNameError::InvalidStoreName);
            }
            store.push(c[i]);
            proof {
                assert(c@.subrange(1, i + 1) =~= c@.subrange(1, i as int).push(c@[i as int]));
            }
            i += 1;
        }
        proof {
            assert(store@ =~= c@.skip(1));
        }
    }
    proof {
        if !(c@.len() > 0 && c@[0] == '/') {
            assert(store@ =~= Seq::<char>::empty());
        }
    }
    Ok(string_from_chars(store.as_slice()))
}

} // verus!
