use kube_copy::config::{PathConfig, WatcherConfig};
use kube_copy::controller::{copies_for_pod_ready, copies_for_ready_pods, queries_for_fs_change, FanOut};
use kube_copy::router::SyncRouter;
use kube_copy::syncer::CopyOutcome;

fn rule(name: &str, ctx: &str, ns: &str, selectors: &[&str], paths: &[(&str, &str)]) -> WatcherConfig {
    WatcherConfig {
        name: name.to_string(),
        kube_context: ctx.to_string(),
        namespace: ns.to_string(),
        label_selectors: selectors.iter().map(|s| s.to_string()).collect(),
        paths: paths
            .iter()
            .map(|(s, d)| PathConfig { src: s.to_string(), dest: d.to_string() })
            .collect(),
    }
}

#[test]
fn by_src_returns_exactly_matching_rules() {
    let router = SyncRouter::new(vec![
        rule("a", "dev", "ns1", &["app=a"], &[("./a", "/a"), ("./shared", "/s")]),
        rule("b", "dev", "ns2", &["app=b"], &[("./b", "/b")]),
        rule("c", "dev", "ns3", &["app=c"], &[("./shared", "/t")]),
    ]);
    let hits = router.configs_by_src("./shared");
    assert_eq!(hits.len(), 2);
    assert_eq!(hits[0].name, "a");
    assert_eq!(hits[1].name, "c");
    assert_eq!(router.configs_by_src("./a").len(), 1);
    assert_eq!(router.configs_by_src("./nope").len(), 0);
}

#[test]
fn by_src_lists_rule_once_despite_duplicate_sources() {
    let router = SyncRouter::new(vec![rule(
        "a",
        "dev",
        "ns",
        &["app=a"],
        &[("./a", "/one"), ("./a", "/two")],
    )]);
    let hits = router.configs_by_src("./a");
    assert_eq!(hits.len(), 1);
}

#[test]
fn by_selector_returns_exactly_matching_rules() {
    let router = SyncRouter::new(vec![
        rule("a", "dev", "ns1", &["app=api", "tier=web"], &[("./a", "/a")]),
        rule("b", "dev", "ns2", &["app=api"], &[("./b", "/b")]),
        rule("c", "dev", "ns3", &["app=db"], &[("./c", "/c")]),
    ]);
    let hits = router.configs_by_selector("app=api");
    assert_eq!(hits.len(), 2);
    assert_eq!(hits[0].name, "a");
    assert_eq!(hits[1].name, "b");
    assert_eq!(router.configs_by_selector("tier=web").len(), 1);
    assert_eq!(router.configs_by_selector("app=none").len(), 0);
}

#[test]
fn match_configs_joins_src_and_selector() {
    let router = SyncRouter::new(vec![
        rule("a", "dev", "ns1", &["app=api"], &[("./a", "/a"), ("./x", "/x")]),
        rule("b", "dev", "ns2", &["app=db"], &[("./a", "/b")]),
    ]);
    // Rule "a" is in both buckets; only its "./a" entry matches, not "./x".
    let matched = router.match_configs("./a", "app=api");
    assert_eq!(matched.len(), 1);
    assert_eq!(matched[0].0.name, "a");
    assert_eq!(matched[0].1.src, "./a");
    assert_eq!(matched[0].1.dest, "/a");
    // Rule "b" shares the source but not the selector.
    assert_eq!(router.match_configs("./a", "app=db").len(), 1);
    assert_eq!(router.match_configs("./x", "app=db").len(), 0);
}

#[test]
fn match_configs_keeps_equal_but_distinct_rules_apart() {
    let r = rule("same", "dev", "ns", &["app=api"], &[("./a", "/a")]);
    let router = SyncRouter::new(vec![r.clone(), r]);
    // Two structurally identical rules are distinct instances: both match.
    let matched = router.match_configs("./a", "app=api");
    assert_eq!(matched.len(), 2);
    assert_eq!(matched[0].1.dest, "/a");
    assert_eq!(matched[1].1.dest, "/a");
}

#[test]
fn match_configs_emits_one_pair_per_matching_entry() {
    let router = SyncRouter::new(vec![rule(
        "a",
        "dev",
        "ns",
        &["app=api"],
        &[("./a", "/one"), ("./b", "/b"), ("./a", "/two")],
    )]);
    let matched = router.match_configs("./a", "app=api");
    assert_eq!(matched.len(), 2);
    assert_eq!(matched[0].1.dest, "/one");
    assert_eq!(matched[1].1.dest, "/two");
}

#[test]
fn queries_for_fs_change_one_per_rule_selector() {
    let router = SyncRouter::new(vec![
        rule("a", "dev", "ns1", &["app=api", "tier=web"], &[("./a", "/a")]),
        rule("b", "prod", "ns2", &["app=db"], &[("./b", "/b")]),
    ]);
    let queries = queries_for_fs_change(&router, "./a");
    assert_eq!(queries.len(), 2);
    assert_eq!(queries[0].kube_context, "dev");
    assert_eq!(queries[0].namespace, "ns1");
    assert_eq!(queries[0].selector, "app=api");
    assert_eq!(queries[1].selector, "tier=web");
    assert_eq!(queries_for_fs_change(&router, "./b").len(), 1);
    assert_eq!(queries_for_fs_change(&router, "./zzz").len(), 0);
}

#[test]
fn pod_ready_fan_out_copies_every_path_of_matching_rules() {
    let router = SyncRouter::new(vec![
        rule("a", "dev", "ns1", &["app=api"], &[("./a", "/a"), ("./conf", "/etc")]),
        rule("b", "dev", "ns2", &["app=db"], &[("./b", "/b")]),
    ]);
    // Rule "a" has k = 2 paths: exactly 2 copies, one per path, to the
    // event's context/namespace/pod, whatever path changed recently.
    let ops = copies_for_pod_ready(&router, "dev", "default", "app=api", "api-1");
    assert_eq!(ops.len(), 2);
    assert_eq!(ops[0].kube_context, "dev");
    assert_eq!(ops[0].namespace, "default");
    assert_eq!(ops[0].pod, "api-1");
    assert_eq!(ops[0].src, "./a");
    assert_eq!(ops[0].dest, "/a");
    assert_eq!(ops[1].src, "./conf");
    assert_eq!(ops[1].dest, "/etc");
    assert_eq!(copies_for_pod_ready(&router, "dev", "d", "app=none", "p").len(), 0);
}

#[test]
fn fs_fan_out_one_copy_per_pod_and_pair() {
    let router = SyncRouter::new(vec![rule(
        "a",
        "dev",
        "ns1",
        &["app=api"],
        &[("./a", "/one"), ("./a", "/two"), ("./other", "/o")],
    )]);
    let pods = vec!["p1".to_string(), "p2".to_string()];
    // 2 pods x 2 matching pairs = 4 copies, pod-major order, targeting
    // the rule's own context and namespace.
    let ops = copies_for_ready_pods(&router, "./a", "app=api", &pods);
    assert_eq!(ops.len(), 4);
    assert_eq!(ops[0].pod, "p1");
    assert_eq!(ops[0].kube_context, "dev");
    assert_eq!(ops[0].namespace, "ns1");
    assert_eq!(ops[0].dest, "/one");
    assert_eq!(ops[1].pod, "p1");
    assert_eq!(ops[1].dest, "/two");
    assert_eq!(ops[2].pod, "p2");
    assert_eq!(ops[2].dest, "/one");
    assert_eq!(ops[3].pod, "p2");
    assert_eq!(ops[3].dest, "/two");
}

#[test]
fn fs_fan_out_empty_without_ready_pods() {
    let router = SyncRouter::new(vec![rule("a", "dev", "ns", &["app=api"], &[("./a", "/a")])]);
    let ops = copies_for_ready_pods(&router, "./a", "app=api", &Vec::new());
    assert_eq!(ops.len(), 0);
}

#[test]
fn fan_out_failure_does_not_stop_siblings() {
    let ops = vec![
        kube_copy::controller::CopyOp {
            kube_context: "dev".to_string(),
            namespace: "ns".to_string(),
            pod: "p".to_string(),
            src: "./a".to_string(),
            dest: "/a".to_string(),
        },
        kube_copy::controller::CopyOp {
            kube_context: "dev".to_string(),
            namespace: "ns".to_string(),
            pod: "p".to_string(),
            src: "./b".to_string(),
            dest: "/b".to_string(),
        },
        kube_copy::controller::CopyOp {
            kube_context: "dev".to_string(),
            namespace: "ns".to_string(),
            pod: "p".to_string(),
            src: "./c".to_string(),
            dest: "/c".to_string(),
        },
    ];
    let mut fan_out = FanOut::begin(ops);
    let mut attempted: Vec<String> = Vec::new();
    while let Some(op) = fan_out.next_op() {
        let src = op.src.clone();
        attempted.push(src.clone());
        // The middle copy fails; the fan-out must keep going regardless.
        if src == "./b" {
            fan_out.record(CopyOutcome::Failure("connection reset".to_string()));
        } else {
            fan_out.record(CopyOutcome::Success);
        }
    }
    assert!(fan_out.is_done());
    assert_eq!(attempted, vec!["./a", "./b", "./c"]);
    let outcomes = fan_out.into_outcomes();
    assert_eq!(outcomes.len(), 3);
    assert!(matches!(outcomes[0], CopyOutcome::Success));
    assert!(matches!(outcomes[1], CopyOutcome::Failure(_)));
    assert!(matches!(outcomes[2], CopyOutcome::Success));
}

#[test]
fn scenario_pod_ready_single_copy() {
    // Rule {context:"dev", namespace:"default", selectors:["app=api"],
    // paths:[{src:"./api", dest:"/app"}]}: a readiness transition for
    // pod api-7x2 yields exactly one copy "./api" -> default/api-7x2:/app.
    let router = SyncRouter::new(vec![rule(
        "api",
        "dev",
        "default",
        &["app=api"],
        &[("./api", "/app")],
    )]);
    let ops = copies_for_pod_ready(&router, "dev", "default", "app=api", "api-7x2");
    assert_eq!(ops.len(), 1);
    assert_eq!(ops[0].kube_context, "dev");
    assert_eq!(ops[0].namespace, "default");
    assert_eq!(ops[0].pod, "api-7x2");
    assert_eq!(ops[0].src, "./api");
    assert_eq!(ops[0].dest, "/app");
}
