//! A three-generation cache: entries enter the fresh generation, a sweep ages
//! fresh entries to young and young ones to old and evicts the old generation,
//! and a lookup that finds an old entry promotes it back to young.

use std::collections::HashMap;
use std::hash::Hash;
use vstd::prelude::*;

verus! {

broadcast use vstd::std_specs::hash::group_hash_axioms;

/// The three generations of a cache, as maps.
#[verifier::reject_recursive_types(K)]
pub struct Generations<K, V> {
    pub fresh: Map<K, V>,
    pub young: Map<K, V>,
    pub old: Map<K, V>,
}

/// No key is in two generations at once.
pub open spec fn generations_disjoint<K, V>(g: Generations<K, V>) -> bool {
    &&& forall|k: K| #[trigger] g.fresh.contains_key(k) ==> !g.young.contains_key(k) && !g.old.contains_key(k)
    &&& forall|k: K| #[trigger] g.young.contains_key(k) ==> !g.old.contains_key(k)
}

/// What a lookup of `k` finds: the fresh entry, else the young, else the old.
pub open spec fn lookup<K, V>(g: Generations<K, V>, k: K) -> Option<V> {
    if g.fresh.contains_key(k) {
        Some(g.fresh[k])
    } else if g.young.contains_key(k) {
        Some(g.young[k])
    } else if g.old.contains_key(k) {
        Some(g.old[k])
    } else {
        None
    }
}

/// Everything the cache holds, whatever its generation.
pub open spec fn contents<K, V>(g: Generations<K, V>) -> Map<K, V> {
    Map::new(|k: K| lookup(g, k) is Some, |k: K| lookup(g, k)->0)
}

/// An insertion: the entry becomes fresh and leaves the other generations.
pub open spec fn spec_insert<K, V>(g: Generations<K, V>, k: K, v: V) -> Generations<K, V> {
    Generations { fresh: g.fresh.insert(k, v), young: g.young.remove(k), old: g.old.remove(k) }
}

/// A removal from every generation.
pub open spec fn spec_remove<K, V>(g: Generations<K, V>, k: K) -> Generations<K, V> {
    Generations { fresh: g.fresh.remove(k), young: g.young.remove(k), old: g.old.remove(k) }
}

/// The promotion of an old entry to the young generation, holding `v`.
pub open spec fn spec_promote<K, V>(g: Generations<K, V>, k: K, v: V) -> Generations<K, V> {
    Generations { fresh: g.fresh, young: g.young.insert(k, v), old: g.old.remove(k) }
}

/// The ageing step of a sweep: the old generation is dropped, young becomes old
/// and fresh becomes young.
pub open spec fn spec_rotate<K, V>(g: Generations<K, V>) -> Generations<K, V> {
    Generations { fresh: Map::empty(), young: g.fresh, old: g.young }
}

/// An emergency eviction: only the fresh generation stays.
pub open spec fn spec_keep_fresh<K, V>(g: Generations<K, V>) -> Generations<K, V> {
    Generations { fresh: g.fresh, young: Map::empty(), old: Map::empty() }
}

/// One result of a sweep's refresh: `Some(v)` replaces the value of `k` in the
/// generation that holds it (and changes nothing if none does); `None` removes
/// `k` from every generation.
pub open spec fn spec_apply_update<K, V>(g: Generations<K, V>, k: K, ov: Option<V>) -> Generations<K, V> {
    match ov {
        Some(v) => if g.fresh.contains_key(k) {
            Generations { fresh: g.fresh.insert(k, v), ..g }
        } else if g.young.contains_key(k) {
            Generations { young: g.young.insert(k, v), ..g }
        } else if g.old.contains_key(k) {
            Generations { old: g.old.insert(k, v), ..g }
        } else {
            g
        },
        None => spec_remove(g, k),
    }
}

/// The refresh results applied in order.
pub open spec fn spec_apply_updates<K, V>(g: Generations<K, V>, ups: Seq<(K, Option<V>)>) -> Generations<K, V>
    decreases ups.len(),
{
    if ups.len() == 0 {
        g
    } else {
        let prev = spec_apply_updates(g, ups.drop_last());
        spec_apply_update(prev, ups.last().0, ups.last().1)
    }
}

/// How many of the refresh results replaced a value that the cache still held.
pub open spec fn updated_count<K, V>(g: Generations<K, V>, ups: Seq<(K, Option<V>)>) -> nat
    decreases ups.len(),
{
    if ups.len() == 0 {
        0
    } else {
        let prev = spec_apply_updates(g, ups.drop_last());
        let k = ups.last().0;
        updated_count(g, ups.drop_last()) + if ups.last().1 is Some && lookup(prev, k) is Some {
            1nat
        } else {
            0nat
        }
    }
}

/// Invariant: an insertion keeps the generations disjoint.
pub proof fn lemma_insert_disjoint<K, V>(g: Generations<K, V>, k: K, v: V)
    requires
        generations_disjoint(g),
    ensures
        generations_disjoint(spec_insert(g, k, v)),
{
    let h = spec_insert(g, k, v);
    assert forall|j: K| #[trigger] h.fresh.contains_key(j) implies !h.young.contains_key(j) && !h.old.contains_key(j) by {
        if j != k {
            assert(g.fresh.contains_key(j));
        }
    }
}

/// Invariant: a removal keeps the generations disjoint.
pub proof fn lemma_remove_disjoint<K, V>(g: Generations<K, V>, k: K)
    requires
        generations_disjoint(g),
    ensures
        generations_disjoint(spec_remove(g, k)),
{
}

/// Invariant: a promotion of an entry that only the old generation holds keeps
/// the generations disjoint.
pub proof fn lemma_promote_disjoint<K, V>(g: Generations<K, V>, k: K, v: V)
    requires
        generations_disjoint(g),
        !g.fresh.contains_key(k),
        g.old.contains_key(k),
    ensures
        generations_disjoint(spec_promote(g, k, v)),
{
    let h = spec_promote(g, k, v);
    assert forall|j: K| #[trigger] h.young.contains_key(j) implies !h.old.contains_key(j) by {
        if j != k {
            assert(g.young.contains_key(j));
        }
    }
}

/// Invariant: the ageing step of a sweep keeps the generations disjoint.
pub proof fn lemma_rotate_disjoint<K, V>(g: Generations<K, V>)
    requires
        generations_disjoint(g),
    ensures
        generations_disjoint(spec_rotate(g)),
{
}

/// Invariant: an emergency eviction keeps the generations disjoint.
pub proof fn lemma_keep_fresh_disjoint<K, V>(g: Generations<K, V>)
    requires
        generations_disjoint(g),
    ensures
        generations_disjoint(spec_keep_fresh(g)),
{
}

/// Invariant: applying refresh results keeps the generations disjoint.
pub proof fn lemma_apply_updates_disjoint<K, V>(g: Generations<K, V>, ups: Seq<(K, Option<V>)>)
    requires
        generations_disjoint(g),
    ensures
        generations_disjoint(spec_apply_updates(g, ups)),
    decreases ups.len(),
{
    if ups.len() > 0 {
        lemma_apply_updates_disjoint(g, ups.drop_last());
        let p = spec_apply_updates(g, ups.drop_last());
        let k = ups.last().0;
        let h = spec_apply_update(p, k, ups.last().1);
        assert forall|j: K| #[trigger] h.fresh.contains_key(j) implies !h.young.contains_key(j) && !h.old.contains_key(j) by {
            assert(p.fresh.contains_key(j));
        }
        assert forall|j: K| #[trigger] h.young.contains_key(j) implies !h.old.contains_key(j) by {
            assert(p.young.contains_key(j));
        }
    }
}

/// A lookup right after inserting `v` under `k` finds `v`.
pub proof fn law_lookup_after_insert<K, V>(g: Generations<K, V>, k: K, v: V)
    ensures
        lookup(spec_insert(g, k, v), k) == Some(v),
{
}

/// Inserting under `k` changes what a lookup of any other key finds in no way.
pub proof fn law_insert_keeps_other_keys<K, V>(g: Generations<K, V>, k: K, v: V, j: K)
    requires
        j != k,
    ensures
        lookup(spec_insert(g, k, v), j) == lookup(g, j),
{
}

/// After a removal of `k` a lookup of `k` finds nothing, and other keys are
/// unaffected.
pub proof fn law_lookup_after_remove<K, V>(g: Generations<K, V>, k: K, j: K)
    ensures
        lookup(spec_remove(g, k), k) is None,
        j != k ==> lookup(spec_remove(g, k), j) == lookup(g, j),
{
}

/// Promoting an old entry keeps what the cache holds: only the value of the
/// promoted key is replaced, by the value (a clone) that was moved.
pub proof fn law_promote_keeps_contents<K, V>(g: Generations<K, V>, k: K, v: V)
    requires
        generations_disjoint(g),
        !g.fresh.contains_key(k),
        !g.young.contains_key(k),
        g.old.contains_key(k),
    ensures
        contents(spec_promote(g, k, v)) == contents(g).insert(k, v),
{
    assert(contents(spec_promote(g, k, v)) =~= contents(g).insert(k, v));
}

/// The ageing step of a sweep drops exactly the old generation: every other
/// entry is still found, with the same value.
pub proof fn law_rotate_drops_old<K, V>(g: Generations<K, V>, k: K)
    requires
        generations_disjoint(g),
    ensures
        lookup(spec_rotate(g), k) == if g.old.contains_key(k) {
            None
        } else {
            lookup(g, k)
        },
{
}

/// An emergency eviction keeps exactly the fresh entries.
pub proof fn law_keep_fresh<K, V>(g: Generations<K, V>, k: K)
    ensures
        lookup(spec_keep_fresh(g), k) == if g.fresh.contains_key(k) {
            Some(g.fresh[k])
        } else {
            None
        },
{
}

/// Refresh results never add a key to a generation.
pub proof fn law_updates_add_no_key<K, V>(g: Generations<K, V>, ups: Seq<(K, Option<V>)>)
    ensures
        spec_apply_updates(g, ups).fresh.dom().subset_of(g.fresh.dom()),
        spec_apply_updates(g, ups).young.dom().subset_of(g.young.dom()),
        spec_apply_updates(g, ups).old.dom().subset_of(g.old.dom()),
    decreases ups.len(),
{
    if ups.len() > 0 {
        law_updates_add_no_key(g, ups.drop_last());
    }
}

/// Three sweeps with nothing but their own refresh results in between empty
/// the cache: an entry that is neither inserted again nor looked up lives
/// through at most two sweeps.
pub proof fn law_three_sweeps_empty<K, V>(
    g: Generations<K, V>,
    u1: Seq<(K, Option<V>)>,
    u2: Seq<(K, Option<V>)>,
    u3: Seq<(K, Option<V>)>,
)
    ensures
        contents(spec_apply_updates(
            spec_rotate(spec_apply_updates(spec_rotate(spec_apply_updates(spec_rotate(g), u1)), u2)),
            u3,
        )) == Map::<K, V>::empty(),
{
    let g1 = spec_apply_updates(spec_rotate(g), u1);
    law_updates_add_no_key(spec_rotate(g), u1);
    let g2 = spec_apply_updates(spec_rotate(g1), u2);
    law_updates_add_no_key(spec_rotate(g1), u2);
    let g3 = spec_apply_updates(spec_rotate(g2), u3);
    law_updates_add_no_key(spec_rotate(g2), u3);
    assert(g1.fresh.dom() =~= Set::empty());
    assert(g2.fresh.dom() =~= Set::empty());
    assert(g2.young.dom() =~= Set::empty());
    assert(g3.fresh.dom() =~= Set::empty());
    assert(g3.young.dom() =~= Set::empty());
    assert(g3.old.dom() =~= Set::empty());
    assert(contents(g3) =~= Map::<K, V>::empty());
}

/// The keys of each generation, as a snapshot.
pub struct GenerationalCacheStats<K> {
    pub fresh: Vec<K>,
    pub young: Vec<K>,
    pub old: Vec<K>,
}

/// The entries of a generational cache.
pub struct CacheImpl<K, V> {
    fresh: HashMap<K, V>,
    young: HashMap<K, V>,
    old: HashMap<K, V>,
}

/// `v` holds a clone of each key of `m`, once each: `ks` lists the keys of `m`
/// without repetition and `v[i]` is a clone of `ks[i]`.
pub open spec fn key_snapshot_by<K: Clone, V>(m: Map<K, V>, ks: Seq<K>, v: Seq<K>) -> bool {
    &&& ks.no_duplicates()
    &&& ks.to_set() == m.dom()
    &&& ks.len() == v.len()
    &&& forall|i: int| 0 <= i < v.len() ==> cloned(ks[i], #[trigger] v[i])
}

/// `v` holds a clone of each key of `m`, and nothing else.
pub open spec fn key_snapshot<K: Clone, V>(m: Map<K, V>, v: Seq<K>) -> bool {
    exists|ks: Seq<K>| key_snapshot_by(m, ks, v)
}

/// `v` holds a clone of each entry of `m`, once each: `ks` lists the keys of
/// `m` without repetition, and `v[i]` pairs a clone of `ks[i]` with a clone of
/// its value.
pub open spec fn entry_snapshot_by<K: Clone, V: Clone>(m: Map<K, V>, ks: Seq<K>, v: Seq<(K, V)>) -> bool {
    &&& ks.no_duplicates()
    &&& ks.to_set() == m.dom()
    &&& ks.len() == v.len()
    &&& forall|i: int| 0 <= i < v.len() ==> cloned(ks[i], (#[trigger] v[i]).0) && cloned(m[ks[i]], v[i].1)
}

/// `v` holds a clone of each entry of `m`, and nothing else.
pub open spec fn entry_snapshot<K: Clone, V: Clone>(m: Map<K, V>, v: Seq<(K, V)>) -> bool {
    exists|ks: Seq<K>| entry_snapshot_by(m, ks, v)
}

/// `HashMap::remove_entry`: removes `k` and hands back the stored key and value.
#[verifier::external_body]
fn hash_map_remove_entry<K: Eq + Hash, V>(m: &mut HashMap<K, V>, k: &K) -> (res: Option<(K, V)>)
    ensures
        vstd::std_specs::hash::obeys_key_model::<K>() ==> match res {
            Some(e) => old(m)@.contains_key(*k) && e.0 == *k && e.1 == old(m)@[*k] && final(m)@
                == old(m)@.remove(*k),
            None => !old(m)@.contains_key(*k) && final(m)@ == old(m)@,
        },
{
    m.remove_entry(k)
}

impl<K, V> CacheImpl<K, V> {
    /// The three generations.
    pub closed spec fn generations(&self) -> Generations<K, V> {
        Generations { fresh: self.fresh@, young: self.young@, old: self.old@ }
    }

    /// The cache's invariant: no key is in two generations.
    pub open spec fn wf(&self) -> bool {
        generations_disjoint(self.generations())
    }
}

impl<K: Eq + Hash, V: Clone> CacheImpl<K, V> {
    /// An empty cache.
    pub fn new() -> (res: Self)
        ensures
            res.wf(),
            res.generations() == (Generations {
                fresh: Map::<K, V>::empty(),
                young: Map::<K, V>::empty(),
                old: Map::<K, V>::empty(),
            }),
    {
        CacheImpl { fresh: HashMap::new(), young: HashMap::new(), old: HashMap::new() }
    }

    /// Looks `k` up. A fresh or young entry is returned as a clone and stays
    /// where it is; an old entry is returned and a clone of it moves to the
    /// young generation.
    pub fn get(&mut self, k: &K) -> (res: Option<V>)
        requires
            vstd::std_specs::hash::obeys_key_model::<K>(),
            old(self).wf(),
        ensures
            final(self).wf(),
            res is Some <==> lookup(old(self).generations(), *k) is Some,
            ({
                let g = old(self).generations();
                if g.fresh.contains_key(*k) || g.young.contains_key(*k) {
                    &&& final(self).generations() == g
                    &&& res matches Some(r) && cloned(lookup(g, *k)->0, r)
                } else if g.old.contains_key(*k) {
                    &&& res == Some(g.old[*k])
                    &&& exists|v: V| cloned(g.old[*k], v) && final(self).generations() == spec_promote(g, *k, v)
                } else {
                    final(self).generations() == g
                }
            }),
    {
        if let Some(v) = self.fresh.get(k) {
            return Some(v.clone());
        }
        if let Some(v) = self.young.get(k) {
            return Some(v.clone());
        }
        if let Some((key, v)) = hash_map_remove_entry(&mut self.old, k) {
            let c = v.clone();
            self.young.insert(key, c);
            proof {
                assert(cloned(v, c));
                assert(self.generations() == spec_promote(old(self).generations(), *k, c));
            }
            return Some(v);
        }
        None
    }

    /// Inserts `v` under `k` as a fresh entry, taking `k` out of the older
    /// generations.
    pub fn insert(&mut self, k: K, v: V)
        requires
            vstd::std_specs::hash::obeys_key_model::<K>(),
            old(self).wf(),
        ensures
            final(self).wf(),
            final(self).generations() == spec_insert(old(self).generations(), k, v),
    {
        proof {
            lemma_insert_disjoint(old(self).generations(), k, v);
        }
        self.young.remove(&k);
        self.old.remove(&k);
        self.fresh.insert(k, v);
    }

    /// Removes `k` from every generation.
    pub fn remove(&mut self, k: &K)
        requires
            vstd::std_specs::hash::obeys_key_model::<K>(),
            old(self).wf(),
        ensures
            final(self).wf(),
            final(self).generations() == spec_remove(old(self).generations(), *k),
    {
        proof {
            lemma_remove_disjoint(old(self).generations(), *k);
        }
        self.fresh.remove(k);
        self.young.remove(k);
        self.old.remove(k);
    }
}

/// Clones of the keys of `m`.
fn clone_keys<K: Clone + Eq + Hash, V>(m: &HashMap<K, V>) -> (res: Vec<K>)
    requires
        vstd::std_specs::hash::obeys_key_model::<K>(),
    ensures
        key_snapshot(m@, res@),
{
    let mut out: Vec<K> = Vec::new();
    let ghost ks = vstd::std_specs::iter::IteratorSpec::remaining(&vstd::std_specs::hash::spec_keys_iter(m));
    for k in it: m.keys()
        invariant
            it.seq() == ks,
            out@.len() == it.index(),
            forall|i: int| 0 <= i < it.index() ==> cloned(*ks[i], #[trigger] out@[i]),
    {
        let c = k.clone();
        out.push(c);
    }
    proof {
        let ku = ks.unref();
        assert(key_snapshot_by(m@, ku, out@));
    }
    out
}

/// Clones of the entries of `m`.
fn clone_entries<K: Clone + Eq + Hash, V: Clone>(m: &HashMap<K, V>) -> (res: Vec<(K, V)>)
    requires
        vstd::std_specs::hash::obeys_key_model::<K>(),
    ensures
        entry_snapshot(m@, res@),
{
    let mut out: Vec<(K, V)> = Vec::new();
    let ghost es = vstd::std_specs::iter::IteratorSpec::remaining(
        &vstd::std_specs::hash::spec_hash_map_iter(m),
    );
    for e in it: m.iter()
        invariant
            it.seq() == es,
            out@.len() == it.index(),
            forall|i: int|
                0 <= i < it.index() ==> cloned(*es[i].0, (#[trigger] out@[i]).0) && cloned(
                    *es[i].1,
                    out@[i].1,
                ),
    {
        let (k, v) = e;
        let kc = k.clone();
        let vc = v.clone();
        out.push((kc, vc));
    }
    proof {
        let ks = Seq::new(es.len(), |i: int| *es[i].0);
        assert forall|i: int| 0 <= i < es.len() implies m@.contains_key(#[trigger] ks[i]) && m@[ks[i]]
            == *es[i].1 by {
            assert(m@.contains_key(*es[i].0));
        }
        assert forall|i: int, j: int| 0 <= i < ks.len() && 0 <= j < ks.len() && i != j implies ks[i]
            != ks[j] by {
            if ks[i] == ks[j] {
                assert(es[i] == es[j]);
            }
        }
        assert forall|k: K| ks.to_set().contains(k) <==> m@.dom().contains(k) by {
            if m@.dom().contains(k) {
                assert(es.contains((&k, &m@[k])));
                let j = choose|j: int| 0 <= j < es.len() && es[j] == (&k, &m@[k]);
                assert(ks[j] == k);
            }
            if ks.to_set().contains(k) {
                let j = choose|j: int| 0 <= j < ks.len() && ks[j] == k;
                assert(m@.contains_key(ks[j]));
            }
        }
        assert(ks.to_set() =~= m@.dom());
        assert(entry_snapshot_by(m@, ks, out@));
    }
    out
}

impl<K: Eq + Hash + Clone, V: Clone> CacheImpl<K, V> {
    /// The keys of each generation.
    pub fn stats(&self) -> (res: GenerationalCacheStats<K>)
        requires
            vstd::std_specs::hash::obeys_key_model::<K>(),
        ensures
            key_snapshot(self.generations().fresh, res.fresh@),
            key_snapshot(self.generations().young, res.young@),
            key_snapshot(self.generations().old, res.old@),
    {
        GenerationalCacheStats {
            fresh: clone_keys(&self.fresh),
            young: clone_keys(&self.young),
            old: clone_keys(&self.old),
        }
    }

    /// Drops the young and old generations and keeps only the fresh one;
    /// returns how many old and how many young entries were dropped.
    pub fn emergency_evict(&mut self) -> (res: (usize, usize))
        requires
            vstd::std_specs::hash::obeys_key_model::<K>(),
            old(self).wf(),
        ensures
            final(self).wf(),
            final(self).generations() == spec_keep_fresh(old(self).generations()),
            res.0 == old(self).generations().old.len(),
            res.1 == old(self).generations().young.len(),
    {
        let old_size = self.old.len();
        let young_size = self.young.len();
        self.old = HashMap::new();
        self.young = HashMap::new();
        proof {
            lemma_keep_fresh_disjoint(old(self).generations());
        }
        (old_size, young_size)
    }
}

impl<K: Eq + Hash + Clone, V: Clone> CacheImpl<K, V> {
    /// The first half of a sweep: drops the old generation, ages young to old
    /// and fresh to young, and returns how many entries were dropped together
    /// with clones of the entries that are now old, for the caller to refresh.
    pub fn begin_sweep(&mut self) -> (res: (usize, Vec<(K, V)>))
        requires
            vstd::std_specs::hash::obeys_key_model::<K>(),
            old(self).wf(),
        ensures
            final(self).wf(),
            final(self).generations() == spec_rotate(old(self).generations()),
            res.0 == old(self).generations().old.len(),
            entry_snapshot(old(self).generations().young, res.1@),
    {
        let evicted = self.old.len();
        let mut young: HashMap<K, V> = HashMap::new();
        std::mem::swap(&mut young, &mut self.young);
        let mut fresh: HashMap<K, V> = HashMap::new();
        std::mem::swap(&mut fresh, &mut self.fresh);
        self.old = young;
        self.young = fresh;
        proof {
            lemma_rotate_disjoint(old(self).generations());
        }
        let preserved = clone_entries(&self.old);
        (evicted, preserved)
    }

    /// The second half of a sweep: applies the refreshed values in order (see
    /// `spec_apply_update`) and returns how many of them replaced a value that
    /// the cache still held.
    pub fn finish_sweep(&mut self, preserved: Vec<(K, Option<V>)>) -> (res: usize)
        requires
            vstd::std_specs::hash::obeys_key_model::<K>(),
            old(self).wf(),
        ensures
            final(self).wf(),
            final(self).generations() == spec_apply_updates(old(self).generations(), preserved@),
            res == updated_count(old(self).generations(), preserved@),
    {
        let ghost g0 = self.generations();
        let ghost ups = preserved@;
        let mut updated: usize = 0;
        let n = preserved.len();
        for e in it: preserved.into_iter()
            invariant
                it.seq() == ups,
                ups.len() == n,
                generations_disjoint(g0),
                self.wf(),
                self.generations() == spec_apply_updates(g0, ups.take(it.index() as int)),
                updated == updated_count(g0, ups.take(it.index() as int)),
                updated <= it.index(),
                vstd::std_specs::hash::obeys_key_model::<K>(),
        {
            let ghost i = it.index();
            assert(i < n);
            let ghost prev = self.generations();
            proof {
                assert(ups.take(i + 1).drop_last() == ups.take(i as int));
                assert(ups.take(i + 1).last() == e);
            }
            let (k, ov) = e;
            match ov {
                Some(v) => {
                    if self.fresh.contains_key(&k) {
                        self.fresh.insert(k, v);
                        updated += 1;
                    } else if self.young.contains_key(&k) {
                        self.young.insert(k, v);
                        updated += 1;
                    } else if self.old.contains_key(&k) {
                        self.old.insert(k, v);
                        updated += 1;
                    }
                },
                None => {
                    self.fresh.remove(&k);
                    self.young.remove(&k);
                    self.old.remove(&k);
                },
            }
            proof {
                lemma_apply_updates_disjoint(g0, ups.take(i + 1));
            }
        }
        proof {
            assert(ups.take(ups.len() as int) == ups);
        }
        updated
    }
}

} // verus!
