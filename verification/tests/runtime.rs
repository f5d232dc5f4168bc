use kube_copy::debounce::{Debouncer, DEFAULT_QUIET_MS};
use kube_copy::syncer::{is_pod_ready, ready_pod_names, ClientCache, CopyOutcome, PodInfo, SyncError};

#[test]
fn default_quiet_window_is_one_second() {
    assert_eq!(DEFAULT_QUIET_MS, 1000);
}

#[test]
fn burst_of_events_coalesces_into_one_trigger() {
    // Scenario: 5 raw events on "./api" within 200 ms, quiet window
    // 1000 ms: exactly one trigger, due 1000 ms after the last event.
    let mut d = Debouncer::new(1000);
    let times: [u64; 5] = [0, 50, 100, 150, 200];
    let mut cmds = Vec::new();
    for t in times {
        cmds.push(d.on_raw_event("./api", t));
    }
    // Every event but the first cancels its predecessor's action.
    assert_eq!(cmds[0].cancelled, None);
    for i in 1..5 {
        assert_eq!(cmds[i].cancelled, Some(cmds[i - 1].token));
    }
    // The last action is due a full quiet window after the last event.
    assert_eq!(cmds[4].fire_at, 200 + 1000);
    // Superseded timers do not fire.
    for i in 0..4 {
        assert!(!d.on_timer_fired("./api", cmds[i].token));
    }
    // The last timer fires, exactly once.
    assert!(d.on_timer_fired("./api", cmds[4].token));
    assert!(!d.on_timer_fired("./api", cmds[4].token));
}

#[test]
fn events_for_distinct_keys_are_independent() {
    let mut d = Debouncer::new(500);
    let a = d.on_raw_event("./a", 10);
    let b = d.on_raw_event("./b", 20);
    // The event for "./b" cancelled nothing: "./a" was not touched.
    assert_eq!(b.cancelled, None);
    assert_eq!(b.fire_at, 20 + 500);
    // Both pending actions fire, each for its own key.
    assert!(d.on_timer_fired("./a", a.token));
    assert!(d.on_timer_fired("./b", b.token));
}

#[test]
fn timer_for_wrong_key_does_not_fire() {
    let mut d = Debouncer::new(100);
    let a = d.on_raw_event("./a", 0);
    assert!(!d.on_timer_fired("./b", a.token));
    assert!(d.on_timer_fired("./a", a.token));
}

#[test]
fn tokens_are_handed_out_strictly_increasing() {
    let mut d = Debouncer::new(100);
    let c1 = d.on_raw_event("./a", 0);
    let c2 = d.on_raw_event("./b", 0);
    let c3 = d.on_raw_event("./a", 1);
    assert!(c1.token < c2.token);
    assert!(c2.token < c3.token);
}

fn pod(name: Option<&str>, ready: Option<&[bool]>) -> PodInfo {
    PodInfo {
        name: name.map(|n| n.to_string()),
        container_ready: ready.map(|r| r.to_vec()),
    }
}

#[test]
fn pod_readiness_is_fail_closed() {
    // No reported statuses at all: not ready.
    assert!(!is_pod_ready(&pod(Some("p"), None)));
    // Statuses reported but empty: no container vouched for, not ready.
    assert!(!is_pod_ready(&pod(Some("p"), Some(&[]))));
    // One container not ready: not ready.
    assert!(!is_pod_ready(&pod(Some("p"), Some(&[true, false, true]))));
    // Every reported container ready: ready.
    assert!(is_pod_ready(&pod(Some("p"), Some(&[true]))));
    assert!(is_pod_ready(&pod(Some("p"), Some(&[true, true]))));
}

#[test]
fn ready_pod_names_filters_and_keeps_order() {
    let pods = vec![
        pod(Some("a"), Some(&[true])),
        pod(Some("b"), Some(&[false])),
        pod(None, Some(&[true])),
        pod(Some("d"), None),
        pod(Some("e"), Some(&[true, true])),
    ];
    let names = ready_pod_names(&pods);
    assert_eq!(names, vec!["a".to_string(), "e".to_string()]);
}

#[test]
fn client_cache_caches_per_context() {
    let mut cache = ClientCache::new();
    assert_eq!(cache.get("dev"), None);
    cache.insert("dev", 7);
    assert_eq!(cache.get("dev"), Some(7));
    assert_eq!(cache.get("prod"), None);
    cache.insert("prod", 8);
    assert_eq!(cache.get("dev"), Some(7));
    assert_eq!(cache.get("prod"), Some(8));
}

#[test]
fn client_cache_replaces_on_duplicate_construction() {
    let mut cache = ClientCache::new();
    cache.insert("dev", 1);
    cache.insert("dev", 2);
    assert_eq!(cache.get("dev"), Some(2));
}

#[test]
fn sync_error_variants_carry_their_detail() {
    let e1 = SyncError::ConfigLoadError("no kubeconfig".to_string());
    let e2 = SyncError::ClientInitError("bad certificate".to_string());
    let e3 = SyncError::ClusterQueryError("timeout".to_string());
    assert!(matches!(e1, SyncError::ConfigLoadError(ref d) if d == "no kubeconfig"));
    assert!(matches!(e2, SyncError::ClientInitError(ref d) if d == "bad certificate"));
    assert!(matches!(e3, SyncError::ClusterQueryError(ref d) if d == "timeout"));
}

#[test]
fn copy_outcome_failure_carries_detail() {
    let ok = CopyOutcome::Success;
    let bad = CopyOutcome::Failure("exec failed".to_string());
    assert!(matches!(ok, CopyOutcome::Success));
    assert!(matches!(bad, CopyOutcome::Failure(ref d) if d == "exec failed"));
}
