use blueboat::kv::{
    cas_start, cas_step, check_compare_and_set, check_get_many_keys, check_passes, check_prefix_list,
    mutation_for, needs_read, prefix_list_range, versionstamped_key, CasAction, CasEvent, CasPhase,
    KvCompareAndSetManyRequest, KvCompareAndSetManyRequestKey, KvMutation, KvRequestError, TriStateCheck,
    TriStateSet, MAX_KEYS_PER_OP, MAX_KEY_SIZE, MAX_VALUE_SIZE,
};
use blueboat::kvutil::group_kv_rows_by_prefix;

fn key(k: &str, check: TriStateCheck<Vec<u8>>, set: TriStateSet<Vec<u8>>) -> KvCompareAndSetManyRequestKey<Vec<u8>> {
    KvCompareAndSetManyRequestKey { key: k.to_string(), check, set }
}

#[test]
fn kv_request_limits() {
    assert_eq!(check_get_many_keys(&vec!["a".to_string(); MAX_KEYS_PER_OP]), Ok(()));
    assert_eq!(
        check_get_many_keys(&vec!["a".to_string(); MAX_KEYS_PER_OP + 1]),
        Err(KvRequestError::TooManyKeys)
    );
    assert_eq!(
        check_get_many_keys(&vec!["a".to_string(), "b".repeat(MAX_KEY_SIZE + 1)]),
        Err(KvRequestError::KeyTooLarge)
    );
    // The limit is in bytes: "é" takes two.
    assert_eq!(check_prefix_list(&"é".repeat(MAX_KEY_SIZE / 2)), Ok(()));
    assert_eq!(check_prefix_list(&"é".repeat(MAX_KEY_SIZE / 2 + 1)), Err(KvRequestError::PrefixTooLarge));
}

#[test]
fn kv_compare_and_set_limits() {
    let ok = KvCompareAndSetManyRequest {
        namespace: "ns".to_string(),
        keys: vec![key("a", TriStateCheck::Value(vec![1]), TriStateSet::Value(vec![2]))],
    };
    assert_eq!(check_compare_and_set(&ok), Ok(()));
    let big_check = KvCompareAndSetManyRequest {
        namespace: "ns".to_string(),
        keys: vec![
            key("a", TriStateCheck::Any, TriStateSet::Preserve),
            key("b", TriStateCheck::Value(vec![0; MAX_VALUE_SIZE + 1]), TriStateSet::Value(vec![0; MAX_VALUE_SIZE + 1])),
        ],
    };
    assert_eq!(check_compare_and_set(&big_check), Err(KvRequestError::CheckValueTooLarge));
    let big_set = KvCompareAndSetManyRequest {
        namespace: "ns".to_string(),
        keys: vec![key("a", TriStateCheck::Any, TriStateSet::Value(vec![0; MAX_VALUE_SIZE + 1]))],
    };
    assert_eq!(check_compare_and_set(&big_set), Err(KvRequestError::SetValueTooLarge));
    let versioned = KvCompareAndSetManyRequest {
        namespace: "ns".to_string(),
        keys: vec![key("a", TriStateCheck::Any, TriStateSet::WithVersionstampedKey { value: vec![0; MAX_VALUE_SIZE + 1] })],
    };
    assert_eq!(check_compare_and_set(&versioned), Ok(()));
}

#[test]
fn kv_checks_and_mutations() {
    assert!(!needs_read::<Vec<u8>>(&TriStateCheck::Any));
    assert!(needs_read::<Vec<u8>>(&TriStateCheck::Absent));
    assert!(check_passes(&TriStateCheck::Absent, None));
    assert!(!check_passes(&TriStateCheck::Absent, Some(&vec![1])));
    assert!(check_passes(&TriStateCheck::Value(vec![1]), Some(&vec![1])));
    assert!(!check_passes(&TriStateCheck::Value(vec![1]), Some(&vec![2])));
    assert!(!check_passes(&TriStateCheck::Value(vec![1]), None));
    let k = vec![9u8, 8];
    assert_eq!(mutation_for(&TriStateSet::Preserve, &k), KvMutation::Keep);
    assert_eq!(mutation_for(&TriStateSet::Delete, &k), KvMutation::Clear(k.clone()));
    assert_eq!(mutation_for(&TriStateSet::Value(vec![5]), &k), KvMutation::Put(k.clone(), vec![5]));
    assert_eq!(
        mutation_for(&TriStateSet::WithVersionstampedKey { value: vec![5] }, &k),
        KvMutation::SetVersionstampedKey(vec![9, 8, 0, 0, 0, 0, 0, 0, 0, 0, 0, 0, 2, 0, 0, 0], vec![5])
    );
}

#[test]
fn kv_versionstamped_key_layout() {
    let k = vec![1u8; 300];
    let v = versionstamped_key(&k);
    assert_eq!(v.len(), 314);
    assert_eq!(&v[..300], &k[..]);
    assert_eq!(&v[300..310], &[0u8; 10]);
    assert_eq!(&v[310..], &[0x2c, 0x01, 0, 0]);
}

#[test]
fn kv_prefix_list_ranges() {
    assert_eq!(prefix_list_range(vec![1, 2], None, false), (vec![1, 2], vec![1, 2, 0xff]));
    assert_eq!(prefix_list_range(vec![1, 2], Some(vec![1, 2, 7]), false), (vec![1, 2, 7, 0], vec![1, 2, 0xff]));
    assert_eq!(prefix_list_range(vec![1, 2], Some(vec![1, 2, 7]), true), (vec![1, 2], vec![1, 2, 7]));
}

#[test]
fn kv_cas_machine_commits() {
    let req = KvCompareAndSetManyRequest {
        namespace: "ns".to_string(),
        keys: vec![
            key("a", TriStateCheck::Absent, TriStateSet::Value(vec![1])),
            key("b", TriStateCheck::Any, TriStateSet::WithVersionstampedKey { value: vec![2] }),
        ],
    };
    let packed = vec![vec![10], vec![11]];
    let st = cas_start();
    let (st, act) = cas_step(&req, &packed, st, CasEvent::Proceed);
    assert!(matches!(act, CasAction::Read(0)));
    let (st, act) = cas_step(&req, &packed, st, CasEvent::Value(None));
    assert!(matches!(act, CasAction::Write(KvMutation::Put(ref k, ref v)) if *k == vec![10] && *v == vec![1]));
    let (st, act) = cas_step(&req, &packed, st, CasEvent::Proceed);
    assert!(matches!(act, CasAction::Write(KvMutation::SetVersionstampedKey(_, _))));
    assert!(st.has_versionstamp);
    let (st, act) = cas_step(&req, &packed, st, CasEvent::Proceed);
    assert!(matches!(act, CasAction::Commit { want_versionstamp: true }));
    let (st, act) = cas_step(&req, &packed, st, CasEvent::Committed(Some(b"hello".to_vec())));
    assert_eq!(st.phase, CasPhase::Done);
    match act {
        CasAction::Respond(r) => {
            assert!(r.ok);
            assert_eq!(r.committed.unwrap().versionstamp, Some("aGVsbG8=".to_string()));
        }
        _ => panic!("a commit is answered"),
    }
}

#[test]
fn kv_cas_machine_refuses_and_retries() {
    let req = KvCompareAndSetManyRequest {
        namespace: "ns".to_string(),
        keys: vec![key("a", TriStateCheck::Value(vec![1]), TriStateSet::Delete)],
    };
    let packed = vec![vec![10]];
    let (st, _) = cas_step(&req, &packed, cas_start(), CasEvent::Proceed);
    let (st2, act) = cas_step(&req, &packed, st, CasEvent::Value(Some(vec![2])));
    assert_eq!(st2.phase, CasPhase::Done);
    assert!(matches!(act, CasAction::Respond(ref r) if !r.ok && r.committed.is_none()));
    let (st, act) = cas_step(&req, &packed, st, CasEvent::Value(Some(vec![1])));
    assert!(matches!(act, CasAction::Write(KvMutation::Clear(_))));
    let (st, act) = cas_step(&req, &packed, st, CasEvent::Proceed);
    assert!(matches!(act, CasAction::Commit { want_versionstamp: false }));
    let (st, act) = cas_step(&req, &packed, st, CasEvent::Conflict);
    assert!(matches!(act, CasAction::Reset));
    assert_eq!(st, cas_start());
    let (_, act) = cas_step(&req, &packed, st, CasEvent::Conflict);
    assert!(matches!(act, CasAction::Ignore));
}

#[test]
fn kv_cas_versionstamp_only_when_asked() {
    let req = KvCompareAndSetManyRequest {
        namespace: "ns".to_string(),
        keys: vec![key("a", TriStateCheck::Any, TriStateSet::Value(vec![1]))],
    };
    let packed = vec![vec![10]];
    let (st, _) = cas_step(&req, &packed, cas_start(), CasEvent::Proceed);
    let (st, act) = cas_step(&req, &packed, st, CasEvent::Proceed);
    assert!(matches!(act, CasAction::Commit { want_versionstamp: false }));
    let (_, act) = cas_step(&req, &packed, st, CasEvent::Committed(Some(b"stamp".to_vec())));
    match act {
        CasAction::Respond(r) => {
            assert!(r.ok);
            assert_eq!(r.committed.unwrap().versionstamp, None);
        }
        _ => panic!("a commit is answered"),
    }
    let (_, act) = cas_step(&req, &packed, st, CasEvent::Failed);
    assert!(matches!(act, CasAction::Fail));

    let req = KvCompareAndSetManyRequest {
        namespace: "ns".to_string(),
        keys: vec![key("a", TriStateCheck::Any, TriStateSet::WithVersionstampedKey { value: vec![1] })],
    };
    let (st, _) = cas_step(&req, &packed, cas_start(), CasEvent::Proceed);
    let (st, act) = cas_step(&req, &packed, st, CasEvent::Proceed);
    assert!(matches!(act, CasAction::Commit { want_versionstamp: true }));
    let (_, act) = cas_step(&req, &packed, st, CasEvent::Committed(None));
    assert!(matches!(act, CasAction::Fail));
}

#[test]
fn kv_rows_grouped_by_prefix() {
    let rows = vec![
        ("shards/a/url".to_string(), vec![1]),
        ("shards/a/region".to_string(), vec![2]),
        ("nokey".to_string(), vec![3]),
        ("shards/b/url".to_string(), vec![4]),
        ("shards/a/url".to_string(), vec![5]),
    ];
    let g = group_kv_rows_by_prefix(&rows);
    assert_eq!(g.len(), 3);
    assert_eq!(g[0].0, "shards/a");
    assert_eq!(g[0].1, vec![("url".to_string(), vec![1]), ("region".to_string(), vec![2])]);
    assert_eq!(g[1].0, "shards/b");
    assert_eq!(g[1].1, vec![("url".to_string(), vec![4])]);
    assert_eq!(g[2].0, "shards/a");
    assert_eq!(g[2].1, vec![("url".to_string(), vec![5])]);
}

#[test]
fn kv_cursor_paths() {
    assert_eq!(blueboat::kv::cursor_path("users", "bob"), "users/bob");
    assert_eq!(blueboat::kv::cursor_path("", "x"), "/x");
}
