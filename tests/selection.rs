use pvc_restarter::correlate::{class_listed, path_listed, pod_is_target, qualifying_paths, select_targets};
use pvc_restarter::model::{ObjectPath, PodRecord, PvcRecord};

fn s(v: &str) -> String {
    v.to_string()
}

fn pvc(ns: &str, name: &str, class: Option<&str>) -> PvcRecord {
    PvcRecord::new(Some(s(ns)), Some(s(name)), class.map(s))
}

fn pod(ns: &str, name: &str, phase: &str, owners: usize, claims: &[Option<&str>]) -> PodRecord {
    PodRecord::new(
        Some(s(ns)),
        Some(s(name)),
        Some(s(phase)),
        owners,
        claims.iter().map(|c| c.map(s)).collect(),
    )
}

fn pairs(paths: &[ObjectPath]) -> Vec<(String, String)> {
    paths.iter().map(|p| (p.namespace.clone(), p.name.clone())).collect()
}

fn classes() -> Vec<String> {
    vec![s("fast-ssd")]
}

#[test]
fn configured_class_selects_controlled_running_pod() {
    let pvcs = vec![pvc("ns1", "data-a", Some("fast-ssd"))];
    let pods = vec![pod("ns1", "web-0", "Running", 1, &[Some("data-a")])];
    let r = select_targets(&pvcs, &pods, &classes(), false);
    assert_eq!(pairs(&r), vec![(s("ns1"), s("web-0"))]);
}

#[test]
fn unconfigured_class_selects_nothing() {
    let pvcs = vec![pvc("ns1", "data-b", Some("slow-hdd"))];
    let pods = vec![pod("ns1", "batch-0", "Running", 1, &[Some("data-b")])];
    assert!(select_targets(&pvcs, &pods, &classes(), false).is_empty());
}

#[test]
fn uncontrolled_pod_excluded_by_default() {
    let pvcs = vec![pvc("ns2", "cache", Some("fast-ssd"))];
    let pods = vec![pod("ns2", "cronjob-xyz", "Running", 0, &[Some("cache")])];
    assert!(select_targets(&pvcs, &pods, &classes(), false).is_empty());
}

#[test]
fn uncontrolled_pod_selected_when_allowed() {
    let pvcs = vec![pvc("ns2", "cache", Some("fast-ssd"))];
    let pods = vec![pod("ns2", "cronjob-xyz", "Running", 0, &[Some("cache")])];
    let r = select_targets(&pvcs, &pods, &classes(), true);
    assert_eq!(pairs(&r), vec![(s("ns2"), s("cronjob-xyz"))]);
}

#[test]
fn pods_not_running_never_selected() {
    let pvcs = vec![pvc("ns1", "data-a", Some("fast-ssd"))];
    for phase in ["Pending", "Succeeded", "Failed", "Unknown", "running"] {
        let pods = vec![pod("ns1", "web-0", phase, 1, &[Some("data-a")])];
        assert!(select_targets(&pvcs, &pods, &classes(), true).is_empty());
    }
}

#[test]
fn pod_with_two_qualifying_claims_selected_once() {
    let pvcs = vec![pvc("ns1", "a", Some("fast-ssd")), pvc("ns1", "b", Some("fast-ssd"))];
    let pods = vec![pod("ns1", "db-0", "Running", 1, &[Some("a"), None, Some("b")])];
    let r = select_targets(&pvcs, &pods, &classes(), false);
    assert_eq!(pairs(&r), vec![(s("ns1"), s("db-0"))]);
}

#[test]
fn class_match_is_exact() {
    let pvcs = vec![
        pvc("ns1", "p1", Some("fast")),
        pvc("ns1", "p2", Some("fast-ssd-2")),
        pvc("ns1", "p3", None),
        pvc("ns1", "p4", Some("fast-ssd")),
    ];
    let r = qualifying_paths(&pvcs, &classes());
    assert_eq!(pairs(&r), vec![(s("ns1"), s("p4"))]);
    assert!(class_listed(&classes(), &s("fast-ssd")));
    assert!(!class_listed(&classes(), &s("fast")));
    assert!(!class_listed(&vec![], &s("fast-ssd")));
}

#[test]
fn claim_matched_only_in_pod_namespace() {
    let pvcs = vec![pvc("ns1", "data", Some("fast-ssd"))];
    let pods = vec![pod("ns2", "web-0", "Running", 1, &[Some("data")])];
    assert!(select_targets(&pvcs, &pods, &classes(), false).is_empty());
}

#[test]
fn incomplete_records_skipped() {
    let pvcs = vec![
        PvcRecord::new(None, Some(s("data")), Some(s("fast-ssd"))),
        PvcRecord::new(Some(s("ns1")), None, Some(s("fast-ssd"))),
        pvc("ns1", "ok", Some("fast-ssd")),
    ];
    assert_eq!(pairs(&qualifying_paths(&pvcs, &classes())), vec![(s("ns1"), s("ok"))]);
    let pods = vec![
        PodRecord::new(None, Some(s("x")), Some(s("Running")), 1, vec![Some(s("ok"))]),
        PodRecord::new(Some(s("ns1")), None, Some(s("Running")), 1, vec![Some(s("ok"))]),
        PodRecord::new(Some(s("ns1")), Some(s("y")), None, 1, vec![Some(s("ok"))]),
        pod("ns1", "z", "Running", 2, &[Some("ok")]),
    ];
    assert_eq!(pairs(&select_targets(&pvcs, &pods, &classes(), true)), vec![(s("ns1"), s("z"))]);
}

#[test]
fn non_claim_volumes_ignored() {
    let pvcs = vec![pvc("ns1", "data", Some("fast-ssd"))];
    let pods = vec![pod("ns1", "web-0", "Running", 1, &[None, None])];
    assert!(!pod_is_target(&pods[0], &qualifying_paths(&pvcs, &classes()), true));
    assert!(select_targets(&pvcs, &pods, &classes(), true).is_empty());
}

#[test]
fn empty_inputs_select_nothing() {
    assert!(select_targets(&vec![], &vec![], &classes(), true).is_empty());
    let pods = vec![pod("ns1", "web-0", "Running", 1, &[Some("data")])];
    assert!(select_targets(&vec![], &pods, &classes(), true).is_empty());
}

#[test]
fn selection_keeps_listing_order() {
    let pvcs = vec![pvc("ns1", "a", Some("fast-ssd")), pvc("ns3", "b", Some("fast-ssd"))];
    let pods = vec![
        pod("ns3", "b", "Running", 1, &[Some("b")]),
        pod("ns1", "skip", "Running", 1, &[Some("zzz")]),
        pod("ns1", "a", "Running", 1, &[Some("a")]),
    ];
    let r = select_targets(&pvcs, &pods, &classes(), false);
    assert_eq!(pairs(&r), vec![(s("ns3"), s("b")), (s("ns1"), s("a"))]);
}

#[test]
fn path_lookup_compares_both_parts() {
    let paths = vec![ObjectPath::new(s("ns1"), s("a"))];
    assert!(path_listed(&paths, &s("ns1"), &s("a")));
    assert!(!path_listed(&paths, &s("ns1"), &s("b")));
    assert!(!path_listed(&paths, &s("ns2"), &s("a")));
}
