use dracon_system::{
    backup_name_for, build_quarantine_list, copy_verified, display_home_with, entry_dir_for,
    expire_selection, file_name, finish_plan, join_path, lexical_normalize, lists_tracked_files,
    manifest_name,
    paths_nest, policy_snippet, quarantine_root, readiness_refusal, relocate_dest, relocate_report,
    sits_directly_under, starts_with_path, unique_name, EntryScan, GuardPolicy,
    QuarantineManifest,
};

fn scan(name: &str, bytes: u64, moved_at: Option<u64>) -> EntryScan {
    EntryScan {
        name: name.to_string(),
        bytes,
        manifest: moved_at.map(|t| QuarantineManifest {
            name: name.to_string(),
            origin: format!("/work/{name}"),
            moved_at_unix: t,
            bytes,
            files: 1,
        }),
    }
}

const DAY: u64 = 86_400;

#[test]
fn quarantine_expire_zero_ttl_disables() {
    let now = 100 * DAY;
    let list = build_quarantine_list("/q".to_string(), 0, vec![scan("proj.1", 11, Some(0))], now);
    assert!(!list.entries[0].expired);
    assert_eq!(list.expired_bytes, 0);
    let out = expire_selection(&list, 0);
    assert!(out.is_empty());
}

#[test]
fn quarantine_list_empty_root() {
    let list = build_quarantine_list("/q".to_string(), 30, vec![], 0);
    assert!(list.entries.is_empty());
    assert_eq!(list.total_bytes, 0);
}

#[test]
fn quarantine_expire_deletes_only_past_ttl() {
    let now = 1_000 * DAY;
    let aged = now - 40 * DAY;
    let fresh = build_quarantine_list("/q".to_string(), 60, vec![scan("proj.1", 11, Some(aged))], now);
    assert!(!fresh.entries[0].expired);
    let listed = build_quarantine_list("/q".to_string(), 30, vec![scan("proj.1", 11, Some(aged))], now);
    assert!(listed.entries[0].expired);
    assert_eq!(listed.entries[0].age_days, Some(40));
    assert_eq!(expire_selection(&listed, 30), vec!["proj.1".to_string()]);
}

#[test]
fn quarantine_list_sorts_and_totals() {
    let now = 1_000 * DAY;
    let scans = vec![
        scan("zeta.3", 5, Some(now - 90 * DAY)),
        scan("alpha.1", 7, None),
        scan("mid.2", 11, Some(now - 2 * DAY)),
        scan("Beta.0", 13, Some(now + DAY)),
    ];
    let list = build_quarantine_list("/q".to_string(), 30, scans, now);
    let names: Vec<&str> = list.entries.iter().map(|e| e.name.as_str()).collect();
    assert_eq!(names, vec!["Beta.0", "alpha.1", "mid.2", "zeta.3"]);
    assert_eq!(list.total_bytes, 36);
    assert_eq!(list.expired_bytes, 5);
    assert_eq!(list.entries[1].origin, "unknown");
    assert_eq!(list.entries[1].age_days, None);
    assert!(!list.entries[1].expired);
    // A manifest from the future gives age 0.
    assert_eq!(list.entries[0].age_days, Some(0));
    assert_eq!(expire_selection(&list, 30), vec!["zeta.3".to_string()]);
    assert_eq!(list.root, "/q");
    assert_eq!(list.ttl_days, 30);
}

#[test]
fn quarantine_root_uses_configured_or_default_dir() {
    let g = GuardPolicy { quarantine_dir: "  /mnt/data/quarantine ".to_string(), ..GuardPolicy::default() };
    assert_eq!(quarantine_root(&g), "/mnt/data/quarantine");
    let d = GuardPolicy::default();
    let root = quarantine_root(&d);
    assert!(root.ends_with("/.dracon/quarantine"));
}

#[test]
fn entry_dir_for_never_reuses_taken_names() {
    let dir = entry_dir_for("/q", "/work/proj", &vec![]);
    assert!(dir.starts_with("/q/proj."));
    let name = dir.trim_start_matches("/q/").to_string();
    let again = entry_dir_for("/q", "/work/proj", &vec![name.clone()]);
    assert_ne!(again, dir);
    let root_only = entry_dir_for("/q", "/", &vec![]);
    assert!(root_only.starts_with("/q/entry."));
    assert_eq!(manifest_name(), ".quarantine.json");
}

#[test]
fn unique_backup_path_bumps_suffix_until_free() {
    let name = "cfg.dracon-system-backup-123";
    let taken = vec![
        name.to_string(),
        format!("{name}-1"),
        format!("{name}-2"),
    ];
    assert_eq!(unique_name(name, &taken), format!("{name}-3"));
    assert_eq!(unique_name(name, &vec![]), name);
    assert_eq!(unique_name(name, &vec![format!("{name}-1")]), name);
}

#[test]
fn backup_path_for_never_reuses_an_occupied_backup_name() {
    let occupied = "config.dracon-system-backup-0".to_string();
    let backup = backup_name_for("config", &vec![occupied.clone()]);
    assert_ne!(backup, occupied);
    assert!(backup.starts_with("config.dracon-system-backup-"));
}

#[test]
fn path_helpers_follow_path_semantics() {
    assert_eq!(join_path("/a", "b"), "/a/b");
    assert_eq!(join_path("/a/", "b"), "/a/b");
    assert_eq!(join_path("/a", "/b"), "/b");
    assert_eq!(join_path("", "b"), "b");
    assert_eq!(file_name("/a/b/"), Some("b".to_string()));
    assert_eq!(file_name("/a/b/."), Some("b".to_string()));
    assert_eq!(file_name("/"), None);
    assert_eq!(file_name("a/.."), None);
    assert!(starts_with_path("/a/b", "/a"));
    assert!(starts_with_path("/a//b/", "/a/"));
    assert!(!starts_with_path("/ab", "/a"));
    assert!(!starts_with_path("a/b", "/a"));
    assert!(starts_with_path("/a", ""));
    assert!(paths_nest("/x/y", "/x"));
    assert!(paths_nest("/x", "/x/y"));
    assert!(!paths_nest("/x/y", "/x/z"));
    assert!(sits_directly_under("/q/e", "/q"));
    assert!(!sits_directly_under("/q/e/f", "/q"));
    assert!(!sits_directly_under("/r/e", "/q"));
}

#[test]
fn lexical_normalize_collapses_dots() {
    assert_eq!(lexical_normalize("a/b/../../c"), "c");
    assert_eq!(lexical_normalize("/a/./b/../c"), "/a/c");
    assert_eq!(lexical_normalize("../a/../.."), "../..");
    assert_eq!(lexical_normalize("/../x"), "/x");
    assert_eq!(lexical_normalize("/"), "/");
    assert_eq!(lexical_normalize("~/a/../b"), "~/b");
    let once = lexical_normalize("x/./y/../../../z/");
    assert_eq!(once, "../z");
    assert_eq!(lexical_normalize(&once), once);
}

#[test]
fn display_home_abbreviates_leading_home() {
    assert_eq!(display_home_with("/home/u/data", Some("/home/u".to_string())), "~/data");
    assert_eq!(display_home_with("/srv/data", Some("/home/u".to_string())), "/srv/data");
    assert_eq!(display_home_with("/srv/data", None), "/srv/data");
}

#[test]
fn plan_relocate_reports_size_and_readiness() {
    let dest = relocate_dest("/work/src", "/cold").unwrap();
    assert_eq!(dest, "/cold/src");
    assert!(dest.ends_with("src"));
    let plan = finish_plan("/work/src".to_string(), dest, 2, 11, Some(1 << 30));
    assert_eq!(plan.files, 2);
    assert_eq!(plan.bytes, 11);
    assert!(plan.ready);
    assert!(plan.fits);
    assert!(plan.issues.is_empty());
    let unknown = finish_plan("/s".to_string(), "/d/s".to_string(), 1, 5, None);
    assert!(unknown.ready);
}

#[test]
fn plan_relocate_not_ready_without_room() {
    let plan = finish_plan("/s".to_string(), "/d/s".to_string(), 3, 4096, Some(1024));
    assert!(!plan.fits);
    assert!(!plan.ready);
    assert_eq!(plan.issues, vec!["destination has 1.0 KiB free but source needs 4.0 KiB".to_string()]);
    assert!(relocate_dest("/", "/cold").is_none());
}

#[test]
fn apply_relocate_report_carries_policy_snippet() {
    let plan = finish_plan("/work/src".to_string(), "/cold/src".to_string(), 2, 11, None);
    assert!(copy_verified(plan.files, plan.bytes, 2, 11));
    assert!(!copy_verified(plan.files, plan.bytes, 2, 10));
    let report = relocate_report(&plan, 0);
    assert_eq!(report.files, 2);
    assert_eq!(report.bytes, 11);
    assert!(report.policy_snippet.contains("[[links.entries]]"));
    assert_eq!(
        policy_snippet("/a", "/b"),
        "[[links.entries]]\nlink = \"/a\"\ntarget = \"/b\"\n"
    );
}

#[test]
fn entry_dir_for_takes_the_plain_stamped_name_when_free() {
    let dir = entry_dir_for("/q", "/work/proj", &vec!["other".to_string()]);
    let stamp = dir.strip_prefix("/q/proj.").unwrap();
    assert!(!stamp.is_empty());
    assert!(stamp.bytes().all(|b| b.is_ascii_digit()));
}

#[test]
fn backup_name_for_takes_the_plain_stamped_name_when_free() {
    let backup = backup_name_for("config", &vec![]);
    let stamp = backup.strip_prefix("config.dracon-system-backup-").unwrap();
    assert!(!stamp.is_empty());
    assert!(stamp.bytes().all(|b| b.is_ascii_digit()));
}

#[test]
fn longer_ttl_never_expires_more() {
    let now = 100 * DAY;
    let scans = || {
        vec![
            scan("a.1", 5, Some(now - 40 * DAY - 1)),
            scan("b.1", 7, Some(now - 70 * DAY - 1)),
            scan("c.1", 11, Some(now - 10 * DAY)),
            scan("d.1", 13, None),
        ]
    };
    let short = build_quarantine_list("/q".to_string(), 30, scans(), now);
    let long = build_quarantine_list("/q".to_string(), 60, scans(), now);
    assert_eq!(short.entries.len(), long.entries.len());
    assert_eq!(short.total_bytes, long.total_bytes);
    for (s, l) in short.entries.iter().zip(long.entries.iter()) {
        assert_eq!(s.name, l.name);
        assert!(!l.expired || s.expired);
    }
    assert_eq!(short.expired_bytes, 12);
    assert_eq!(long.expired_bytes, 7);
    assert!(long.expired_bytes <= short.expired_bytes);
}

#[test]
fn ls_files_output_names_a_file_unless_blank() {
    assert!(!lists_tracked_files(b""));
    assert!(!lists_tracked_files(b" \t\r\n\x0c"));
    assert!(lists_tracked_files(b"src/main.rs\n"));
    assert!(lists_tracked_files(b"\x0b"));
    for b in 0u8..=255 {
        assert_eq!(lists_tracked_files(&[b]), !b.is_ascii_whitespace());
    }
}

#[test]
fn apply_refuses_a_plan_that_is_not_ready() {
    let ready = finish_plan("/s".to_string(), "/d/s".to_string(), 1, 10, Some(100));
    assert_eq!(readiness_refusal(&ready), None);
    let full = finish_plan("/s".to_string(), "/d/s".to_string(), 3, 4096, Some(1024));
    assert_eq!(
        readiness_refusal(&full),
        Some("plan is not ready: destination has 1.0 KiB free but source needs 4.0 KiB".to_string())
    );
    let mut two = full.clone();
    two.issues.push("second".to_string());
    assert_eq!(
        readiness_refusal(&two),
        Some("plan is not ready: destination has 1.0 KiB free but source needs 4.0 KiB; second".to_string())
    );
    let mut bare = ready.clone();
    bare.ready = false;
    assert_eq!(readiness_refusal(&bare), Some("plan is not ready: ".to_string()));
}

#[test]
fn sorted_listings_line_up_with_equal_names() {
    let now = 100 * DAY;
    let scans = || {
        vec![
            scan("same", 3, Some(now - 40 * DAY - 1)),
            scan("b", 5, None),
            scan("same", 7, Some(now - 5 * DAY)),
            scan("a", 9, Some(now - 90 * DAY)),
        ]
    };
    let short = build_quarantine_list("/q".to_string(), 30, scans(), now);
    let long = build_quarantine_list("/q".to_string(), 60, scans(), now);
    let names: Vec<&str> = short.entries.iter().map(|e| e.name.as_str()).collect();
    assert_eq!(names, vec!["a", "b", "same", "same"]);
    for (s, l) in short.entries.iter().zip(long.entries.iter()) {
        assert_eq!((s.name.as_str(), s.bytes, s.age_days), (l.name.as_str(), l.bytes, l.age_days));
        assert!(!l.expired || s.expired);
    }
    assert_eq!(short.expired_bytes, 12);
    assert_eq!(long.expired_bytes, 9);
}
