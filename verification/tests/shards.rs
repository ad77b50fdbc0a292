use blueboat::dom::{js_node_data, DomNode, JsNodeData};
use blueboat::lpch::background_entry;
use blueboat::mds::join_user_key;
use blueboat::metadata::{mysql_root_cert, Metadata, MysqlConfigError, RootCertChoice};
use blueboat::shards::{choose_server, plan_shard_refresh, store_name, RegionConfig, ServerConfig, StoreNameError};

fn region(urls: &[&str]) -> Option<RegionConfig> {
    Some(RegionConfig { servers: urls.iter().map(|u| ServerConfig { url: u.to_string() }).collect() })
}

fn strings(v: &[&str]) -> Vec<String> {
    v.iter().map(|s| s.to_string()).collect()
}

#[test]
fn shard_refresh_plan() {
    let current = vec![
        ("a".to_string(), strings(&["u1", "u2"])),
        ("b".to_string(), strings(&["u3"])),
        ("gone".to_string(), strings(&["u9"])),
    ];
    let listed = vec![
        ("a".to_string(), region(&["u2", "u1"])),
        ("b".to_string(), region(&["u4", "u3", "u5"])),
        ("bad".to_string(), None),
        ("new".to_string(), region(&["u6"])),
    ];
    let plan = plan_shard_refresh(&current, &listed);
    assert_eq!(plan.removed, strings(&["gone"]));
    assert_eq!(plan.updates.len(), 2);
    let b = &plan.updates[0];
    assert_eq!(b.name, "b");
    // "u3" is kept (the last URL takes its place), then "u4" and "u5" are new.
    assert_eq!(b.reuse, vec![0]);
    assert_eq!(b.connect, strings(&["u4", "u5"]));
    let n = &plan.updates[1];
    assert_eq!(n.name, "new");
    assert!(n.reuse.is_empty());
    assert_eq!(n.connect, strings(&["u6"]));
}

#[test]
fn shard_reuse_order_follows_swap_removal() {
    let current = vec![("a".to_string(), strings(&["x", "y", "x"]))];
    let listed = vec![("a".to_string(), region(&["x", "z", "y", "w"]))];
    let plan = plan_shard_refresh(&current, &listed);
    let a = &plan.updates[0];
    // "x" matches the last current "x" (position 2); "w" moves to the front
    // and stays; then "z" stays, "y" matches position 1.
    assert_eq!(a.reuse, vec![2, 1]);
    assert_eq!(a.connect, strings(&["w", "z"]));
}

#[test]
fn session_server_choice() {
    let servers = vec![
        (true, "eu".to_string()),
        (false, "us".to_string()),
        (false, "eu".to_string()),
    ];
    assert_eq!(choose_server(&servers, "eu"), Some(2));
    assert_eq!(choose_server(&servers, "ap"), Some(1));
    assert_eq!(choose_server(&vec![(true, "eu".to_string())], "eu"), None);
}

#[test]
fn server_store_names() {
    assert_eq!(store_name("/main"), Ok("main".to_string()));
    assert_eq!(store_name("/"), Ok(String::new()));
    assert_eq!(store_name(""), Ok(String::new()));
    assert_eq!(store_name("/a/b"), Err(StoreNameError::InvalidStoreName));
}

#[test]
fn user_key_joined() {
    assert_eq!(join_user_key(&strings(&["a", "b", "c"])), "a/b/c");
    assert_eq!(join_user_key(&vec![]), "");
}

#[test]
fn node_descriptions() {
    let e = DomNode::Element { name: "a".to_string(), attrs: vec![("href".to_string(), "/x".to_string())] };
    match js_node_data(&e) {
        JsNodeData::Element { name, attrs } => {
            assert_eq!(name, "a");
            assert_eq!(attrs.len(), 1);
            assert_eq!(attrs[0].name, "href");
            assert_eq!(attrs[0].value, "/x");
        }
        _ => panic!("an element is described as an element"),
    }
    assert!(matches!(js_node_data(&DomNode::Other), JsNodeData::Other));
}

#[test]
fn mysql_certificates() {
    assert!(matches!(mysql_root_cert(true, false, &None), Err(MysqlConfigError::DisallowedKeys)));
    assert!(matches!(mysql_root_cert(false, true, &Some("default".to_string())), Err(MysqlConfigError::DisallowedKeys)));
    assert!(matches!(mysql_root_cert(false, false, &None), Ok(RootCertChoice::Default)));
    assert!(matches!(mysql_root_cert(false, false, &Some("default".to_string())), Ok(RootCertChoice::Bundled)));
    assert!(matches!(mysql_root_cert(false, false, &Some("PEM".to_string())), Ok(RootCertChoice::Pem(ref p)) if p == b"PEM"));
}

#[test]
fn background_entries() {
    let md = Metadata {
        path: "apps/x".to_string(),
        version: "7".to_string(),
        package: "p".to_string(),
        env: vec![],
        mysql: vec![],
        apns: vec![],
        kv_namespaces: vec![],
        pubsub: vec![],
    };
    let e = background_entry(&md, "req".to_string(), vec![1, 2]);
    assert_eq!(e.app.path, "apps/x");
    assert_eq!(e.app.version, "7");
    assert_eq!(e.request_id, "req");
    assert_eq!(e.wire_bytes, vec![1, 2]);
}

#[test]
fn signed_header_text() {
    assert_eq!(blueboat::aws::header_value_text(b"abc"), "abc");
    assert_eq!(blueboat::aws::header_value_text(&[b'a', 0xff]), "a\u{FFFD}");
}

#[test]
fn mysql_database_lookup() {
    let md = Metadata {
        path: String::new(),
        version: String::new(),
        package: String::new(),
        env: vec![],
        mysql: vec![(
            "db".to_string(),
            blueboat::metadata::MysqlMetadata { url: "mysql://x".to_string(), root_certificate: None },
        )],
        apns: vec![],
        kv_namespaces: vec![],
        pubsub: vec![],
    };
    assert_eq!(md.mysql_database("db").unwrap().url, "mysql://x");
    assert!(md.mysql_database("other").is_none());
}
