use blueboat::cache::CacheImpl;

fn sorted(mut v: Vec<String>) -> Vec<String> {
    v.sort();
    v
}

#[test]
fn cache_get_after_insert() {
    let mut c: CacheImpl<String, i32> = CacheImpl::new();
    c.insert("a".to_string(), 1);
    c.insert("b".to_string(), 2);
    assert_eq!(c.get(&"a".to_string()), Some(1));
    assert_eq!(c.get(&"b".to_string()), Some(2));
    assert_eq!(c.get(&"c".to_string()), None);
    c.insert("a".to_string(), 3);
    assert_eq!(c.get(&"a".to_string()), Some(3));
}

#[test]
fn cache_remove_forgets() {
    let mut c: CacheImpl<String, i32> = CacheImpl::new();
    c.insert("a".to_string(), 1);
    c.remove(&"a".to_string());
    assert_eq!(c.get(&"a".to_string()), None);
    c.remove(&"missing".to_string());
}

#[test]
fn cache_generations_age_on_sweep() {
    let mut c: CacheImpl<String, i32> = CacheImpl::new();
    c.insert("a".to_string(), 1);
    let (evicted, preserved) = c.begin_sweep();
    assert_eq!(evicted, 0);
    assert!(preserved.is_empty());
    let s = c.stats();
    assert!(s.fresh.is_empty());
    assert_eq!(s.young, vec!["a".to_string()]);
    assert!(s.old.is_empty());
    let (evicted, preserved) = c.begin_sweep();
    assert_eq!(evicted, 0);
    assert_eq!(preserved, vec![("a".to_string(), 1)]);
    let s = c.stats();
    assert_eq!(s.old, vec!["a".to_string()]);
    // Reading an old entry promotes it to the young generation.
    assert_eq!(c.get(&"a".to_string()), Some(1));
    let s = c.stats();
    assert_eq!(s.young, vec!["a".to_string()]);
    assert!(s.old.is_empty());
}

#[test]
fn cache_three_sweeps_empty_it() {
    let mut c: CacheImpl<String, i32> = CacheImpl::new();
    c.insert("a".to_string(), 1);
    c.insert("b".to_string(), 2);
    c.begin_sweep();
    c.begin_sweep();
    let (evicted, _) = c.begin_sweep();
    assert_eq!(evicted, 2);
    assert_eq!(c.get(&"a".to_string()), None);
    assert_eq!(c.get(&"b".to_string()), None);
}

#[test]
fn cache_finish_sweep_refreshes_values() {
    let mut c: CacheImpl<String, i32> = CacheImpl::new();
    c.insert("a".to_string(), 1);
    c.insert("b".to_string(), 2);
    c.begin_sweep();
    let (_, mut preserved) = c.begin_sweep();
    preserved.sort();
    assert_eq!(preserved, vec![("a".to_string(), 1), ("b".to_string(), 2)]);
    // The caller refreshes "a", drops "b", and names a key that is gone.
    let updated = c.finish_sweep(vec![
        ("a".to_string(), Some(10)),
        ("b".to_string(), None),
        ("zzz".to_string(), Some(5)),
    ]);
    assert_eq!(updated, 1);
    assert_eq!(c.get(&"a".to_string()), Some(10));
    assert_eq!(c.get(&"b".to_string()), None);
    assert_eq!(c.get(&"zzz".to_string()), None);
}

#[test]
fn cache_emergency_evict_keeps_fresh() {
    let mut c: CacheImpl<String, i32> = CacheImpl::new();
    c.insert("old".to_string(), 1);
    c.begin_sweep();
    c.insert("young".to_string(), 2);
    c.begin_sweep();
    c.insert("fresh".to_string(), 3);
    let s = c.stats();
    assert_eq!(sorted(s.fresh), vec!["fresh".to_string()]);
    assert_eq!(s.young, vec!["young".to_string()]);
    assert_eq!(s.old, vec!["old".to_string()]);
    let (old, young) = c.emergency_evict();
    assert_eq!((old, young), (1, 1));
    assert_eq!(c.get(&"fresh".to_string()), Some(3));
    assert_eq!(c.get(&"young".to_string()), None);
    assert_eq!(c.get(&"old".to_string()), None);
}
