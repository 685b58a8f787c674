use dracon_system::{
    build_link_report, evaluate_link, link_action, LinkAction, LinkEntry, LinkEntryStatus,
    LinkPolicy, LinkProbe, LinkStatusReport, SystemPolicy,
};

fn probe(exists: bool, is_symlink: bool, target_exists: bool, points: &str, target: &str) -> LinkProbe {
    LinkProbe {
        exists,
        is_symlink,
        target_exists,
        points_to: points.to_string(),
        points_to_resolved: points.to_string(),
        target_resolved: target.to_string(),
    }
}

#[test]
fn link_entry_stores_link_and_target() {
    let entry = LinkEntry {
        link: "/home/user/link".to_string(),
        target: "/home/user/target".to_string(),
    };
    assert_eq!(entry.link, "/home/user/link");
    assert_eq!(entry.target, "/home/user/target");
}

#[test]
fn link_policy_empty_by_default() {
    let policy = LinkPolicy::default();
    assert!(policy.entries.is_empty());
}

#[test]
fn system_policy_has_link_section() {
    let policy = SystemPolicy::default();
    assert!(policy.links.entries.is_empty());
}

#[test]
fn evaluate_link_missing_link_returns_missing() {
    let entry = LinkEntry {
        link: "/tmp/does-not-exist-link".to_string(),
        target: "/tmp/does-not-exist-target".to_string(),
    };
    // Neither end exists on disk.
    let status = evaluate_link(&entry, &probe(false, false, false, "", "/tmp/does-not-exist-target"));
    assert_eq!(status.link, entry.link);
    assert!(!status.is_symlink);
    assert!(!status.target_exists);
    assert!(!status.in_sync);
    assert!(!status.issue.is_empty());
}

#[test]
fn link_entry_status_debug() {
    let status = LinkEntryStatus {
        link: "/tmp/mylink".to_string(),
        target: "/tmp/mytarget".to_string(),
        exists: false,
        is_symlink: false,
        target_exists: false,
        points_to: String::new(),
        in_sync: false,
        issue: "missing".to_string(),
    };
    let debug = format!("{:?}", status);
    assert!(debug.contains("/tmp/mylink"));
    assert!(debug.contains("missing"));
}

#[test]
fn link_status_report_debug() {
    let report = LinkStatusReport {
        entries: vec![],
        total: 0,
        healthy: 0,
        drifted: 0,
        missing_target: 0,
        missing_link: 0,
    };
    let debug = format!("{:?}", report);
    assert!(debug.contains("total"));
    assert!(debug.contains("0"));
}

#[test]
fn evaluate_link_handles_missing_and_sync_cases() {
    let entry = LinkEntry { link: "/b/link".to_string(), target: "/b/target.txt".to_string() };
    let s1 = evaluate_link(&entry, &probe(false, false, true, "", "/b/target.txt"));
    assert_eq!(s1.issue, "link_missing");
    let s2 = evaluate_link(&entry, &probe(true, false, true, "", "/b/target.txt"));
    assert_eq!(s2.issue, "path_not_symlink");
    let s3 = evaluate_link(&entry, &probe(true, true, true, "/b/target.txt", "/b/target.txt"));
    assert_eq!(s3.issue, "ok");
    assert!(s3.in_sync);
    let s4 = evaluate_link(&entry, &probe(true, true, true, "/b/other.txt", "/b/target.txt"));
    assert_eq!(s4.issue, "link_target_mismatch");
    assert!(!s4.in_sync);
}

#[test]
fn evaluate_link_reports_missing_target() {
    let entry = LinkEntry { link: "/b/link".to_string(), target: "/b/gone".to_string() };
    let s = evaluate_link(&entry, &probe(true, true, false, "/b/gone", "/b/gone"));
    assert_eq!(s.issue, "target_missing");
    assert!(!s.in_sync);
    assert_eq!(s.points_to, "/b/gone");
}

#[test]
fn build_link_report_counts_states() {
    let entry = LinkEntry {
        link: "/tmp/does-not-exist-link".into(),
        target: "/tmp/does-not-exist-target".into(),
    };
    let status = evaluate_link(&entry, &probe(false, false, false, "", "/tmp/does-not-exist-target"));
    let report = build_link_report(vec![status]);
    assert_eq!(report.total, 1);
    assert_eq!(report.healthy, 0);
    assert_eq!(report.drifted, 1);
    assert_eq!(report.missing_target, 1);
    assert_eq!(report.missing_link, 1);
}

#[test]
fn build_link_report_partitions_healthy_and_drifted() {
    let e = LinkEntry { link: "/l".into(), target: "/t".into() };
    let ok = evaluate_link(&e, &probe(true, true, true, "/t", "/t"));
    let bad = evaluate_link(&e, &probe(true, true, true, "/x", "/t"));
    let gone = evaluate_link(&e, &probe(false, false, true, "", "/t"));
    let r = build_link_report(vec![ok, bad, gone]);
    assert_eq!(r.total, 3);
    assert_eq!(r.healthy, 1);
    assert_eq!(r.drifted, 2);
    assert_eq!(r.healthy + r.drifted, r.total);
    assert_eq!(r.missing_link, 1);
    assert_eq!(r.missing_target, 0);
    assert_eq!(r.entries.len(), 3);
}

#[test]
fn link_action_per_state() {
    let e = LinkEntry { link: "/l".into(), target: "/t".into() };
    let in_sync = evaluate_link(&e, &probe(true, true, true, "/t", "/t"));
    assert_eq!(link_action(&in_sync, false), LinkAction::Keep);
    assert_eq!(link_action(&in_sync, true), LinkAction::Keep);
    let missing = evaluate_link(&e, &probe(false, false, true, "", "/t"));
    assert_eq!(link_action(&missing, false), LinkAction::Create);
    let drifted = evaluate_link(&e, &probe(true, true, true, "/x", "/t"));
    assert_eq!(link_action(&drifted, false), LinkAction::Relink);
    let file = evaluate_link(&e, &probe(true, false, true, "", "/t"));
    assert_eq!(link_action(&file, false), LinkAction::Refuse);
    assert_eq!(link_action(&file, true), LinkAction::BackupAndCreate);
}
