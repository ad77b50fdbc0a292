use blueboat::aws::{signed_url, signing_credentials, AwsRegion, JsAwsCredentials, RegionChoice, S3Region};
use blueboat::dom::{
    node_update, walk_start, walk_step, DomNode, DomTree, DomUpdate, DomUpdateError, FilterExpr, JsNodeData, WalkAction,
    WalkEvent,
};
use blueboat::ipc::{complete_headers, entry_key, group_header_pairs, BlueboatIpcReqV};
use blueboat::layout::{
    check_prop, check_real, constraint_kind, BoxMetrics, ConstraintKind, LayoutBoxProperty, LayoutError, Prop, Real,
};
use blueboat::logsvc::{json_field_name, parse_kafka_config, unique_tid, KafkaConfigError};
use blueboat::markdown::{mime_guess_by_ext, option_bits, text_markdown_render, TextMarkdownRenderOpts};
use blueboat::metadata::{bootstrap_data, KvNamespaceMetadata, Metadata};
use blueboat::pubsub::{check_publish, publish_response_id, PublishError};

#[test]
fn kafka_config_strings() {
    let c = parse_kafka_config("logs.v1:3@kafka-1:9092,kafka-2:9092").unwrap();
    assert_eq!(c.topic, "logs.v1");
    assert_eq!(c.partition, 3);
    assert_eq!(c.servers, "kafka-1:9092,kafka-2:9092");
    assert_eq!(parse_kafka_config("t:2147483647@s").unwrap().partition, 2147483647);
    assert!(matches!(parse_kafka_config("t:2147483648@s"), Err(KafkaConfigError::PartitionOutOfRange)));
    assert!(matches!(parse_kafka_config("t:x1@s"), Err(KafkaConfigError::InvalidConfig)));
    assert!(matches!(parse_kafka_config("t!:1@s"), Err(KafkaConfigError::InvalidConfig)));
    assert!(matches!(parse_kafka_config(":1@s"), Err(KafkaConfigError::InvalidConfig)));
    assert!(matches!(parse_kafka_config("t:1@"), Err(KafkaConfigError::InvalidConfig)));
    assert!(matches!(parse_kafka_config("t:1@a\nb"), Err(KafkaConfigError::InvalidConfig)));
    assert!(matches!(parse_kafka_config("t1@s"), Err(KafkaConfigError::InvalidConfig)));
}

#[test]
fn log_field_names_and_thread_ids() {
    assert_eq!(json_field_name("log.target"), None);
    assert_eq!(json_field_name("r#type"), Some("type".to_string()));
    assert_eq!(json_field_name("message"), Some("message".to_string()));
    assert_eq!(json_field_name("lo"), Some("lo".to_string()));
    assert_eq!(unique_tid(0), "0");
    assert_eq!(unique_tid(42), "42");
    assert_eq!(unique_tid(18446744073709551615), "18446744073709551615");
}

#[test]
fn publish_checks() {
    assert_eq!(check_publish("topic", b"hello"), Ok(()));
    assert_eq!(check_publish(&"t".repeat(101), b"x"), Err(PublishError::TopicTooLong));
    assert_eq!(check_publish("t", &vec![b'a'; 10001]), Err(PublishError::MessageTooLarge));
    assert_eq!(check_publish("t", &[0xff, 0xfe]), Err(PublishError::InvalidUtf8));
    assert_eq!(check_publish("t", b"a\nb"), Err(PublishError::ContainsNewline));
    assert_eq!(publish_response_id(&[0, 1, 0xab]), "0001ab");
}

#[test]
fn layout_metrics_and_checks() {
    let m = BoxMetrics { left: 1, right: 2, top: 3, bottom: 4, z: 5 };
    assert_eq!(*m.get(LayoutBoxProperty::Left), 1);
    assert_eq!(*m.get(LayoutBoxProperty::Right), 2);
    assert_eq!(*m.get(LayoutBoxProperty::Top), 3);
    assert_eq!(*m.get(LayoutBoxProperty::Bottom), 4);
    assert_eq!(*m.get(LayoutBoxProperty::Z), 5);
    let ok = Real::Add {
        left: Box::new(Real::BoxProperty { id_index: 0, property: LayoutBoxProperty::Left }),
        right: Box::new(Real::Const { fraction: Some((1, 2)) }),
    };
    assert_eq!(check_real(&ok, 1, 0), Ok(()));
    assert_eq!(check_real(&ok, 0, 0), Err(LayoutError::BoxIndexNotFound(0)));
    let p = Prop::And {
        left: Box::new(Prop::Le { left: Box::new(Real::MetricRef { index: 3 }), right: Box::new(Real::Const { fraction: None }) }),
        right: Box::new(Prop::Not { value: Box::new(Prop::Eq { left: Box::new(ok), right: Box::new(Real::MetricRef { index: 0 }) }) }),
    };
    assert_eq!(check_prop(&p, 1, 1), Err(LayoutError::InvalidMetricRef(3)));
    assert_eq!(check_prop(&p, 1, 4), Err(LayoutError::InvalidRealConst));
    assert_eq!(constraint_kind(0), ConstraintKind::Hard);
    assert_eq!(constraint_kind(7), ConstraintKind::Soft(7));
}

#[test]
fn ipc_entries_and_headers() {
    assert_eq!(entry_key(&BlueboatIpcReqV::Background(vec![])), "__blueboat_app_background_entry");
    let pairs = vec![
        ("accept".to_string(), b"a".to_vec()),
        ("accept".to_string(), b"b".to_vec()),
        ("x-bin".to_string(), vec![0xff]),
        ("host".to_string(), b"example.com".to_vec()),
        ("accept".to_string(), b"c".to_vec()),
    ];
    let g = group_header_pairs(&pairs);
    assert_eq!(
        g,
        vec![
            ("accept".to_string(), vec!["a".to_string(), "b".to_string()]),
            ("host".to_string(), vec!["example.com".to_string()]),
            ("accept".to_string(), vec!["c".to_string()]),
        ]
    );
    let headers = vec![
        ("Content-Type".to_string(), vec!["text/plain".to_string()]),
        ("X-Blueboat-Request-Id".to_string(), vec!["spoofed".to_string()]),
    ];
    let out = complete_headers(headers, "1.50".to_string());
    assert_eq!(
        out,
        vec![
            ("content-type".to_string(), vec!["text/plain".to_string()]),
            ("x-blueboat-busy-duration".to_string(), vec!["1.50".to_string()]),
        ]
    );
}

#[test]
fn dom_filters() {
    let p = DomNode::Element {
        name: "p".to_string(),
        attrs: vec![("class".to_string(), " a  b".to_string()), ("id".to_string(), "x".to_string())],
    };
    let t = DomNode::Text { contents: "hi".to_string() };
    let has = |c: &str| FilterExpr::HasClass { class_name: c.to_string() };
    assert!(has("a").eval(&p));
    assert!(has("b").eval(&p));
    assert!(!has("x").eval(&p));
    assert!(!has("").eval(&p));
    assert!(!has("a").eval(&t));
    assert!(FilterExpr::Text.eval(&t));
    assert!(!FilterExpr::Text.eval(&p));
    assert!(FilterExpr::Tag { tag: "p".to_string() }.eval(&p));
    assert!(!FilterExpr::Tag { tag: "span".to_string() }.eval(&p));
    let e = FilterExpr::Or { left: Box::new(FilterExpr::False), right: Box::new(FilterExpr::And { left: Box::new(FilterExpr::True), right: Box::new(has("b")) }) };
    assert!(e.eval(&p));
    assert!(!e.eval(&DomNode::Other));
}

#[test]
fn dom_updates() {
    let p = DomNode::Element { name: "p".to_string(), attrs: vec![] };
    assert!(matches!(
        node_update(JsNodeData::Element { name: "div".to_string(), attrs: vec![] }, &p),
        Err(DomUpdateError::CannotRenameElement)
    ));
    assert!(matches!(node_update(JsNodeData::Element { name: "p".to_string(), attrs: vec![] }, &p), Ok(DomUpdate::SetAttrs(_))));
    assert!(matches!(
        node_update(JsNodeData::Text { text: "t".to_string() }, &DomNode::Text { contents: String::new() }),
        Ok(DomUpdate::SetText(ref s)) if s == "t"
    ));
    assert!(matches!(node_update(JsNodeData::Other, &p), Err(DomUpdateError::KindMismatch)));
}

#[test]
fn markdown_rendering() {
    let plain = TextMarkdownRenderOpts {
        enable_tables: false,
        enable_footnotes: false,
        enable_strikethrough: false,
        enable_tasklists: false,
        enable_smart_punctuation: false,
        disable_sanitization: false,
    };
    assert_eq!(text_markdown_render("# Hi", &plain), "<h1>Hi</h1>\n");
    let cleaned = text_markdown_render("<script>alert(1)</script>ok", &plain);
    assert!(!cleaned.contains("script") && !cleaned.contains("alert"));
    let raw = TextMarkdownRenderOpts { disable_sanitization: true, ..plain };
    assert_eq!(text_markdown_render("<b>x</b>", &raw), "<p><b>x</b></p>\n");
    let strike = TextMarkdownRenderOpts { enable_strikethrough: true, ..plain };
    assert_eq!(option_bits(&strike), 8);
    assert_eq!(text_markdown_render("~~x~~", &strike), "<p><del>x</del></p>\n");
    assert_eq!(text_markdown_render("~~x~~", &plain), "<p>~~x~~</p>\n");
}

#[test]
fn mime_guesses() {
    assert_eq!(mime_guess_by_ext("png"), Some("image/png".to_string()));
    assert_eq!(mime_guess_by_ext("html"), Some("text/html".to_string()));
    assert_eq!(mime_guess_by_ext("nosuchext"), None);
}

#[test]
fn aws_regions_and_urls() {
    let r = AwsRegion { name: "minio".to_string(), endpoint: Some("http://localhost:9000".to_string()) };
    assert!(matches!(r.choice(), RegionChoice::Custom { ref name, ref endpoint } if name == "minio" && endpoint == "http://localhost:9000"));
    let r = S3Region { name: "us-east-1".to_string(), endpoint: None };
    assert!(matches!(r.choice(), RegionChoice::Named(ref n) if n == "us-east-1"));
    assert_eq!(signing_credentials(None), (String::new(), String::new()));
    assert_eq!(
        signing_credentials(Some(JsAwsCredentials { key: "k".to_string(), secret: "s".to_string() })),
        ("k".to_string(), "s".to_string())
    );
    assert_eq!(signed_url("https", "s3.amazonaws.com", "/b/k", ""), "https://s3.amazonaws.com/b/k");
    assert_eq!(signed_url("https", "h", "/", "a=1&b=2"), "https://h/?a=1&b=2");
}

#[test]
fn metadata_lookups() {
    let md = Metadata {
        path: "p".to_string(),
        version: "1".to_string(),
        package: "pkg".to_string(),
        env: vec![("A".to_string(), "1".to_string())],
        mysql: vec![],
        apns: vec![],
        kv_namespaces: vec![
            ("main".to_string(), KvNamespaceMetadata { shard: "s1".to_string(), prefix: "app".to_string(), raw: false }),
            ("aux".to_string(), KvNamespaceMetadata { shard: "s2".to_string(), prefix: "x".to_string(), raw: true }),
        ],
        pubsub: vec![],
    };
    assert_eq!(md.kv_namespace("aux").unwrap().shard, "s2");
    assert!(md.kv_namespace("none").is_none());
    assert!(md.pubsub_namespace("any").is_none());
    let b = bootstrap_data(&md);
    assert!(b.mysql.is_empty());
    assert_eq!(b.env, vec![("A".to_string(), "1".to_string())]);
}

fn sample_tree() -> DomTree {
    let el = |n: &str, class: &str| DomNode::Element {
        name: n.to_string(),
        attrs: vec![("class".to_string(), class.to_string())],
    };
    let text = |c: &str| DomNode::Text { contents: c.to_string() };
    DomTree {
        nodes: vec![
            DomNode::Element { name: "div".to_string(), attrs: vec![] },
            el("p", "a"),
            text("A"),
            el("span", "a"),
            el("p", "b"),
            text("B"),
        ],
        children: vec![vec![1, 4], vec![2, 3], vec![], vec![], vec![5], vec![]],
    }
}

fn walk_calls(f: &FilterExpr, descend: bool) -> Vec<usize> {
    let t = sample_tree();
    let mut st = walk_start(0);
    let mut ev = WalkEvent::Proceed;
    let mut calls = vec![];
    loop {
        let (next, act) = walk_step(f, &t, st, ev);
        st = next;
        match act {
            WalkAction::Call(n) => {
                calls.push(n);
                ev = WalkEvent::Returned(descend);
            }
            WalkAction::Continue => ev = WalkEvent::Proceed,
            WalkAction::Done(ok) => {
                assert!(ok);
                return calls;
            }
            WalkAction::Ignore => panic!("the walk ignored its event"),
        }
    }
}

#[test]
fn dom_query_walk_counts() {
    let has = |c: &str| FilterExpr::HasClass { class_name: c.to_string() };
    assert_eq!(walk_calls(&has("a"), true), vec![1, 3]);
    assert_eq!(walk_calls(&has("a"), false), vec![1]);
    assert_eq!(walk_calls(&has("b"), true), vec![4]);
    let or = FilterExpr::Or { left: Box::new(has("a")), right: Box::new(has("b")) };
    assert_eq!(walk_calls(&or, true), vec![1, 3, 4]);
    assert_eq!(walk_calls(&FilterExpr::Text, true), vec![2, 5]);
    assert_eq!(walk_calls(&FilterExpr::Tag { tag: "span".to_string() }, true), vec![3]);
    assert_eq!(walk_calls(&FilterExpr::True, true), vec![0, 1, 2, 3, 4, 5]);
}

#[test]
fn dom_query_walk_stops_on_throw() {
    let t = sample_tree();
    let (st, act) = walk_step(&FilterExpr::True, &t, walk_start(0), WalkEvent::Proceed);
    assert_eq!(act, WalkAction::Call(0));
    let (st, act) = walk_step(&FilterExpr::True, &t, st, WalkEvent::Threw);
    assert_eq!(act, WalkAction::Done(false));
    let (_, act) = walk_step(&FilterExpr::True, &t, st, WalkEvent::Proceed);
    assert_eq!(act, WalkAction::Ignore);
}
