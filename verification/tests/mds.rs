use blueboat::codec::base64_standard_encode;
use blueboat::keycodec::{decode_path, encode_path, KeyCodecError};
use blueboat::kv::{TriStateCheck, TriStateSet};
use blueboat::mds::{
    compare_and_set_lists, decode_get_many_values, decode_prefix_list_pairs, encode_paths, namespace_key_path,
    user_key_path, join_user_key, MdsResponseError, RetryableMdsError, retry_step, RetryAction, RunOutcome, MAX_RUN_ATTEMPTS,
};
use blueboat::mds_config::{MdsConfig, MdsConfigError};

#[test]
fn key_path_encoding() {
    assert_eq!(encode_path("a/b"), Ok(vec![2, b'a', 0, 2, b'b', 0]));
    assert_eq!(encode_path(""), Ok(vec![2, 0]));
    assert_eq!(encode_path("a\0b"), Err(KeyCodecError::SegmentContainsNul));
    assert_eq!(decode_path(&[2, b'a', 0, 2, b'b', 0]), Ok("a/b".to_string()));
    assert_eq!(decode_path(&[3, b'a', 0]), Err(KeyCodecError::MissingSegmentStart));
    assert_eq!(decode_path(&[2, b'a']), Err(KeyCodecError::MissingSegmentEnd));
    assert_eq!(decode_path(&[]), Ok(String::new()));
}

#[test]
fn key_path_roundtrip() {
    for p in ["x", "apps/1/config", "/leading", "trailing/", "a//b", "é/ü"] {
        let e = encode_path(p).unwrap();
        assert_eq!(decode_path(&e), Ok(p.to_string()));
    }
}

#[test]
fn user_key_segments() {
    assert_eq!(
        user_key_path("cfg", "/ns//x/", "a/b"),
        vec!["cfg".to_string(), "ns".to_string(), "x".to_string(), "a".to_string(), "b".to_string()]
    );
    assert_eq!(namespace_key_path("cfg", ""), vec!["cfg".to_string()]);
}

#[test]
fn get_many_request_and_answer() {
    assert_eq!(
        encode_paths(&vec!["a".to_string(), "b/c".to_string()]),
        Ok(vec![vec![2, b'a', 0], vec![2, b'b', 0, 2, b'c', 0]])
    );
    assert_eq!(encode_paths(&vec!["a".to_string(), "\0".to_string()]), Err(KeyCodecError::SegmentContainsNul));
    assert_eq!(
        decode_get_many_values(2, &vec![Some("aGk=".to_string()), None]),
        Ok(vec![Some(b"hi".to_vec()), None])
    );
    assert_eq!(
        decode_get_many_values(3, &vec![Some("aGk=".to_string()), None]),
        Err(MdsResponseError::UnexpectedResponseLength)
    );
    assert!(matches!(
        decode_get_many_values(1, &vec![Some("!!".to_string())]),
        Err(MdsResponseError::Base64(_))
    ));
}

#[test]
fn compare_and_set_request_lists() {
    let items = vec![
        ("a".to_string(), TriStateCheck::Value(b"hi".to_vec()), TriStateSet::Value(b"yo".to_vec())),
        ("b".to_string(), TriStateCheck::Absent, TriStateSet::WithVersionstampedKey { value: b"v".to_vec() }),
        ("c".to_string(), TriStateCheck::Any, TriStateSet::Delete),
        ("d".to_string(), TriStateCheck::Absent, TriStateSet::Preserve),
    ];
    let l = compare_and_set_lists(&items).unwrap();
    let a = vec![2, b'a', 0];
    let b = vec![2, b'b', 0];
    let c = vec![2, b'c', 0];
    let d = vec![2, b'd', 0];
    assert_eq!(l.checks, vec![(a.clone(), Some("aGk=".to_string())), (d, None)]);
    assert_eq!(l.sets, vec![(a, Some("eW8=".to_string())), (c, None)]);
    assert_eq!(l.versionstamped_sets, vec![(b, Some("dg==".to_string()))]);
    let bad = vec![("x\0".to_string(), TriStateCheck::Any, TriStateSet::Preserve)];
    assert!(matches!(compare_and_set_lists(&bad), Err(KeyCodecError::SegmentContainsNul)));
}

#[test]
fn prefix_list_answer() {
    let k = base64_standard_encode(&encode_path("apps/1").unwrap());
    let pairs = vec![(k.clone(), Some("aGk=".to_string())), (k.clone(), None)];
    assert_eq!(
        decode_prefix_list_pairs(&pairs),
        Ok(vec![("apps/1".to_string(), b"hi".to_vec()), ("apps/1".to_string(), vec![])])
    );
    let not_a_path = base64_standard_encode(&[5, 5]);
    assert_eq!(
        decode_prefix_list_pairs(&vec![(not_a_path, None)]),
        Err(MdsResponseError::Path(KeyCodecError::MissingSegmentStart))
    );
}

#[test]
fn retryable_error_message() {
    let e = RetryableMdsError::new("conflict".to_string());
    assert_eq!(e.message(), "retryable mds error: conflict");
}

#[test]
fn mds_config_parsing() {
    let c = MdsConfig::parse(" main=/etc/fdb.cluster:app , logs=/etc/logs.cluster:l, main=/x:y").unwrap();
    let names: Vec<&String> = c.clusters.keys().collect();
    assert_eq!(names, vec!["main", "logs"]);
    assert_eq!(c.clusters["main"].path, "/x");
    assert_eq!(c.clusters["main"].prefix, "y");
    assert_eq!(c.clusters["logs"].path, "/etc/logs.cluster");
    assert!(matches!(MdsConfig::parse("main=nocolon"), Err(MdsConfigError::InvalidClusterEntry(s)) if s == "main=nocolon"));
    assert!(matches!(MdsConfig::parse("a=b:c, junk "), Err(MdsConfigError::InvalidClusterConfig(s)) if s == "junk"));
}

#[test]
fn mds_run_retries_five_times() {
    assert_eq!(retry_step(0, RunOutcome::Completed), RetryAction::Finish);
    assert_eq!(retry_step(2, RunOutcome::Failed), RetryAction::Fail);
    let mut attempt = 0u32;
    let mut tries = 1;
    loop {
        match retry_step(attempt, RunOutcome::Retryable) {
            RetryAction::RetryAfter { next_attempt, min_ms, max_ms } => {
                assert_eq!((min_ms, max_ms), (10, 100));
                assert_eq!(next_attempt, attempt + 1);
                attempt = next_attempt;
                tries += 1;
            }
            RetryAction::TooManyRetries => break,
            other => panic!("unexpected {:?}", other),
        }
    }
    assert_eq!(tries, 5);
    assert_eq!(MAX_RUN_ATTEMPTS, 5);
}

#[test]
fn mds_user_key_reads_back_normalised() {
    let full = user_key_path("cfg", "/ns//x/", "//a///b/");
    let ns = namespace_key_path("cfg", "/ns//x/");
    assert_eq!(&full[..ns.len()], &ns[..]);
    assert_eq!(join_user_key(&full[ns.len()..].to_vec()), "a/b");
}
