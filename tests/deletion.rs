use pvc_restarter::deletion::{CoreError, DeleteOutcome, DeletionPass};
use pvc_restarter::group::NamespaceGroup;
use pvc_restarter::model::{PodRecord, PvcRecord};
use pvc_restarter::pass::{plan_pass, ConfigError, PassConfig};

fn s(v: &str) -> String {
    v.to_string()
}

fn group(ns: &str, pods: &[&str]) -> NamespaceGroup {
    NamespaceGroup { namespace: s(ns), pods: pods.iter().map(|p| s(p)).collect() }
}

/// Drives a pass, answering the k-th call with `outcomes[k]`; returns the calls made.
fn drive(pass: &mut DeletionPass, outcomes: &[DeleteOutcome]) -> Vec<(String, String, bool)> {
    let mut calls = Vec::new();
    let mut k: usize = 0;
    while let Some(req) = pass.next_request() {
        calls.push((req.namespace.clone(), req.name.clone(), req.dry_run));
        let o = match outcomes.get(k) {
            Some(DeleteOutcome::Accepted) => DeleteOutcome::Accepted,
            Some(DeleteOutcome::StatusSuccess) => DeleteOutcome::StatusSuccess,
            Some(DeleteOutcome::StatusFailure) => DeleteOutcome::StatusFailure,
            Some(DeleteOutcome::TransportError) => DeleteOutcome::TransportError,
            None => DeleteOutcome::Accepted,
        };
        pass.record(o);
        k += 1;
    }
    calls
}

#[test]
fn selected_pod_deleted_without_dry_run() {
    let pvcs = vec![PvcRecord::new(Some(s("ns1")), Some(s("data-a")), Some(s("fast-ssd")))];
    let pods = vec![PodRecord::new(Some(s("ns1")), Some(s("web-0")), Some(s("Running")), 1, vec![Some(s("data-a"))])];
    let config = match PassConfig::new(vec![s("fast-ssd")], false, false) {
        Ok(c) => c,
        Err(_) => panic!("configuration refused"),
    };
    let mut pass = plan_pass(&pvcs, &pods, &config);
    let calls = drive(&mut pass, &[DeleteOutcome::Accepted]);
    assert_eq!(calls, vec![(s("ns1"), s("web-0"), false)]);
    match pass.finish() {
        Ok(summary) => {
            assert_eq!(summary.deleted, 1);
            assert!(summary.unconfirmed.is_empty());
        }
        Err(_) => panic!("pass failed"),
    }
}

#[test]
fn dry_run_flag_sent_with_every_call() {
    let groups = vec![group("ns1", &["a", "b"]), group("ns2", &["c"])];
    let mut pass = DeletionPass::new(&groups, true);
    let calls = drive(&mut pass, &[]);
    assert_eq!(calls, vec![(s("ns1"), s("a"), true), (s("ns1"), s("b"), true), (s("ns2"), s("c"), true)]);
}

#[test]
fn failure_status_is_warning_and_pass_continues() {
    let groups = vec![group("ns1", &["a"]), group("ns3", &["b"])];
    let mut pass = DeletionPass::new(&groups, false);
    let calls = drive(&mut pass, &[DeleteOutcome::StatusFailure, DeleteOutcome::StatusSuccess]);
    assert_eq!(calls, vec![(s("ns1"), s("a"), false), (s("ns3"), s("b"), false)]);
    match pass.finish() {
        Ok(summary) => {
            assert_eq!(summary.deleted, 1);
            assert_eq!(summary.unconfirmed.len(), 1);
            assert_eq!(summary.unconfirmed[0].namespace, "ns1");
            assert_eq!(summary.unconfirmed[0].name, "a");
        }
        Err(_) => panic!("pass failed"),
    }
}

#[test]
fn transport_error_stops_remaining_calls() {
    let groups = vec![group("ns1", &["a", "b"]), group("ns2", &["c", "d"])];
    let mut pass = DeletionPass::new(&groups, false);
    let calls = drive(&mut pass, &[DeleteOutcome::Accepted, DeleteOutcome::TransportError, DeleteOutcome::Accepted]);
    assert_eq!(calls, vec![(s("ns1"), s("a"), false), (s("ns1"), s("b"), false)]);
    assert!(pass.next_request().is_none());
    match pass.finish() {
        Err(CoreError::ClusterDelete(p)) => {
            assert_eq!(p.namespace, "ns1");
            assert_eq!(p.name, "b");
        }
        _ => panic!("expected a delete error"),
    }
}

#[test]
fn empty_pass_issues_nothing() {
    let mut pass = DeletionPass::new(&vec![], false);
    assert!(drive(&mut pass, &[]).is_empty());
    match pass.finish() {
        Ok(summary) => {
            assert_eq!(summary.deleted, 0);
            assert!(summary.unconfirmed.is_empty());
        }
        Err(_) => panic!("pass failed"),
    }
}

#[test]
fn empty_storage_class_list_refused() {
    assert!(matches!(PassConfig::new(vec![], false, false), Err(ConfigError::NoStorageClasses)));
    match PassConfig::new(vec![s("x")], true, true) {
        Ok(c) => {
            assert_eq!(c.storage_classes, vec![s("x")]);
            assert!(c.allow_uncontrolled);
            assert!(c.dry_run);
        }
        Err(_) => panic!("configuration refused"),
    }
}

#[test]
fn both_namespaces_attempted() {
    let pvcs = vec![
        PvcRecord::new(Some(s("ns1")), Some(s("pa")), Some(s("fast-ssd"))),
        PvcRecord::new(Some(s("ns3")), Some(s("pb")), Some(s("fast-ssd"))),
    ];
    let pods = vec![
        PodRecord::new(Some(s("ns1")), Some(s("a")), Some(s("Running")), 1, vec![Some(s("pa"))]),
        PodRecord::new(Some(s("ns3")), Some(s("b")), Some(s("Running")), 1, vec![Some(s("pb"))]),
    ];
    let config = match PassConfig::new(vec![s("fast-ssd")], false, true) {
        Ok(c) => c,
        Err(_) => panic!("configuration refused"),
    };
    let mut pass = plan_pass(&pvcs, &pods, &config);
    let calls = drive(&mut pass, &[DeleteOutcome::StatusFailure, DeleteOutcome::Accepted]);
    assert_eq!(calls, vec![(s("ns1"), s("a"), true), (s("ns3"), s("b"), true)]);
}
