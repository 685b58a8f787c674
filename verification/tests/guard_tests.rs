use dracon_system::{
    check_path_str, check_safe_to_delete, check_safe_to_delete_guard, default_kinds,
    default_min_size_mb, default_proactive_cleanup_interval_cycles,
    default_proactive_cleanup_percent, default_rust_target_max_age_days, disk_state,
    expand_tilde, expand_tilde_with, graduated_nice_value, human_bytes, is_protected_ancestor,
    normalize_guard_policy, parse_df_details, parse_df_use_percent, parse_kinds, parse_ps_output,
    should_notify, should_notify_at, system_protected_paths, DeleteRefusal, GuardPolicy,
    GuardRuntimeState, TargetDirInfo,
};
use std::path::PathBuf;

#[test]
fn defaults_are_expected() {
    assert_eq!(default_min_size_mb(), 512);
    assert_eq!(default_kinds(), "rust-build,node-deps,build-output,cache");
}

#[test]
fn human_bytes_formats_units() {
    assert_eq!(human_bytes(1), "1.0 B");
    assert_eq!(human_bytes(1024), "1.0 KiB");
    assert_eq!(human_bytes(1024 * 1024), "1.0 MiB");
}

#[test]
fn human_bytes_matches_one_decimal_float_formatting() {
    let units = ["B", "KiB", "MiB", "GiB", "TiB"];
    let mut samples: Vec<u64> = vec![0, 1, 999, 1023, 1280, 1536, 1048575, 1048576, 5 * 1024 * 1024 + 1];
    for i in 0..2000u64 {
        samples.push(i * 977 + 13);
        samples.push(i * 1_048_573);
        samples.push(i * 3_221_225_471);
    }
    samples.push(1u64 << 40);
    samples.push((1u64 << 45) + 12345);
    for b in samples {
        let mut k = 0usize;
        let mut v = b as f64;
        while v >= 1024.0 && k < units.len() - 1 {
            v /= 1024.0;
            k += 1;
        }
        assert_eq!(human_bytes(b), format!("{:.1} {}", v, units[k]), "bytes = {b}");
    }
}

#[test]
fn human_bytes_rounds_ties_to_even() {
    // 1280 bytes are exactly 1.25 KiB; 1.35 KiB is not representable exactly.
    assert_eq!(human_bytes(1280), "1.2 KiB");
    assert_eq!(human_bytes(1536), "1.5 KiB");
    assert_eq!(human_bytes(1048575), "1024.0 KiB");
    assert_eq!(human_bytes(1099511627776), "1.0 TiB");
}

#[test]
fn parse_kinds_trims_and_dedupes() {
    let kinds = parse_kinds(" rust-build, node-deps ,rust-build,,cache ");
    assert_eq!(kinds.len(), 3);
    assert!(kinds.contains("rust-build"));
    assert!(kinds.contains("node-deps"));
    assert!(kinds.contains("cache"));
}

#[test]
fn parse_kinds_of_blank_list_is_empty() {
    let kinds = parse_kinds(" , ,\t,");
    assert!(kinds.is_empty());
    let kinds = parse_kinds("");
    assert_eq!(kinds.len(), 0);
    let kinds = parse_kinds("cache");
    assert_eq!(kinds.to_vec(), vec!["cache".to_string()]);
}

#[test]
fn expand_tilde_resolves_to_home_dir() {
    let home = dirs::home_dir().expect("home dir should exist");
    assert_eq!(PathBuf::from(expand_tilde("~")), home);
    assert_eq!(PathBuf::from(expand_tilde("~/foo/bar")), home.join("foo/bar"));
    assert_eq!(PathBuf::from(expand_tilde("/x/y")), PathBuf::from("/x/y"));
}

#[test]
fn expand_tilde_with_home_unset_falls_back_to_dot() {
    assert_eq!(PathBuf::from(expand_tilde("/absolute/path")), PathBuf::from("/absolute/path"));
    assert_eq!(PathBuf::from(expand_tilde("relative/path")), PathBuf::from("relative/path"));
    assert_eq!(expand_tilde_with("~", None), ".");
    assert_eq!(expand_tilde_with("~/a", None), "./a");
    assert_eq!(expand_tilde_with("~/a", Some("/home/u".to_string())), "/home/u/a");
    assert_eq!(expand_tilde_with("~user/a", Some("/home/u".to_string())), "~user/a");
}

#[test]
fn parse_and_format_repeated_scenarios() {
    for i in 0..220usize {
        let csv = if i % 2 == 0 {
            "rust-build,node-deps,cache"
        } else {
            " rust-build , build-output , cache , rust-build "
        };
        let kinds = parse_kinds(csv);
        assert!(kinds.contains("rust-build"));
        assert!(kinds.contains("cache"));

        let bytes = (i as u64 + 1) * 2048;
        let out = human_bytes(bytes);
        assert!(!out.is_empty());
        assert!(out.contains(' '));
    }
}

#[test]
fn parse_df_use_percent_works() {
    let sample =
        "Filesystem 1024-blocks Used Available Capacity Mounted on\n/dev/root 100 91 9 91% /\n";
    assert_eq!(parse_df_use_percent(sample), Some(91));
}

#[test]
fn parse_df_rejects_malformed_output() {
    assert_eq!(parse_df_use_percent("Filesystem only\n"), None);
    assert_eq!(parse_df_use_percent("h\n/dev/root 100 91 9 x% /\n"), None);
    assert_eq!(parse_df_use_percent("h\n/dev/root 100 91 9 300% /\n"), None);
    assert_eq!(parse_df_use_percent("h\n/dev/root 100 91\n"), None);
}

#[test]
fn parse_df_details_reads_block_columns() {
    let sample = "Filesystem 1024-blocks Used Available Capacity Mounted on\n/dev/sda1 1000 250 750 25% /mnt/data\n";
    let d = parse_df_details(sample).expect("details");
    assert_eq!(d.total_bytes, 1000 * 1024);
    assert_eq!(d.used_bytes, 250 * 1024);
    assert_eq!(d.avail_bytes, 750 * 1024);
    assert_eq!(d.use_percent, 25);
    assert!(parse_df_details("Filesystem\n/dev/x a b c 1% /\n").is_none());
}

#[test]
fn parse_ps_output_works() {
    let sample = "123 1 250.5 4194304 5 git\n456 2 12.0 2048 0 zsh\n";
    let rows = parse_ps_output(sample);
    assert_eq!(rows.len(), 2);
    assert_eq!(rows[0].pid, 123);
    assert_eq!(rows[0].ppid, 1);
    assert_eq!(rows[0].command, "git");
    assert_eq!(rows[0].rss_mb, 4096);
    assert_eq!(rows[0].nice, 5);
    assert_eq!(rows[0].args, "");
}

#[test]
fn parse_ps_output_extracts_all_fields() {
    let sample = "9999 1 75.0 8192000 0 git-fetch origin main\n";
    let rows = parse_ps_output(sample);
    assert_eq!(rows.len(), 1);
    assert_eq!(rows[0].pid, 9999);
    assert_eq!(rows[0].ppid, 1);
    assert_eq!(rows[0].cpu_percent_text.parse::<f64>().unwrap(), 75.0);
    assert_eq!(rows[0].rss_mb, 8192000 / 1024);
    assert_eq!(rows[0].command, "git-fetch");
    assert_eq!(rows[0].args, "origin main");
}

#[test]
fn parse_ps_output_skips_headers_and_bad_lines() {
    let sample = "  PID  PPID %CPU RSS NI COMMAND\n\n12 1 0.0 10 -5 a   b\tc\nx 1 0.0 10 0 z\n7 1 1.0 10\n";
    let rows = parse_ps_output(sample);
    assert_eq!(rows.len(), 1);
    assert_eq!(rows[0].pid, 12);
    assert_eq!(rows[0].nice, -5);
    assert_eq!(rows[0].args, "b c");
}

#[test]
fn is_protected_ancestor_exact_match() {
    assert!(is_protected_ancestor("/home", "/home"));
    assert!(is_protected_ancestor("/etc", "/etc"));
    assert!(is_protected_ancestor("/", "/"));
}

#[test]
fn is_protected_ancestor_descendant_match() {
    assert!(is_protected_ancestor("/home/dracon", "/home"));
    assert!(is_protected_ancestor("/home/dracon/Dev", "/home"));
    assert!(is_protected_ancestor("/etc/nginx/nginx.conf", "/etc"));
}

#[test]
fn is_protected_ancestor_rejects_partial_prefix() {
    assert!(!is_protected_ancestor("/homefoo", "/home"));
    assert!(!is_protected_ancestor("/homefoo/bar", "/home"));
    assert!(!is_protected_ancestor("/etcnginx", "/etc"));
}

#[test]
fn is_protected_ancestor_root_matches_exact_only() {
    assert!(is_protected_ancestor("/", "/"));
    assert!(!is_protected_ancestor("/anything", "/"));
    assert!(!is_protected_ancestor("/home", "/"));
}

#[test]
fn check_path_str_blocks_descendants() {
    assert!(!check_path_str("/home/dracon", &[]));
    assert!(!check_path_str("/home/dracon/Dev", &[]));
    assert!(!check_path_str("/etc/nginx", &[]));
    assert!(check_path_str("/safe/path", &[]));
    assert!(check_path_str("/homefoo", &[]));
}

#[test]
fn check_path_str_honours_user_entries() {
    let user = vec!["/data/keep".to_string()];
    assert!(!check_path_str("/data/keep", &user));
    assert!(!check_path_str("/data/keep/x", &user));
    assert!(check_path_str("/data/keeper", &user));
}

#[test]
fn disk_state_transitions_at_thresholds() {
    let guard = GuardPolicy {
        disk_warn_percent: 70,
        disk_action_percent: 85,
        disk_critical_percent: 95,
        ..GuardPolicy::default()
    };
    assert_eq!(disk_state(50, &guard), "ok");
    assert_eq!(disk_state(70, &guard), "warn");
    assert_eq!(disk_state(84, &guard), "warn");
    assert_eq!(disk_state(85, &guard), "action");
    assert_eq!(disk_state(94, &guard), "action");
    assert_eq!(disk_state(95, &guard), "critical");
    assert_eq!(disk_state(100, &guard), "critical");
}

#[test]
fn should_notify_respects_cooldown() {
    let mut state = GuardRuntimeState::default();
    let key = "test-key";
    assert!(should_notify(&mut state, key, 60), "first notify should succeed");
    assert!(!should_notify(&mut state, key, 60), "immediate second notify should be blocked");
    assert!(should_notify(&mut state, "other-key", 60), "different key should succeed");
}

#[test]
fn should_notify_at_fires_again_after_cooldown() {
    let mut state = GuardRuntimeState::default();
    assert!(should_notify_at(&mut state, "k", 60, 1000));
    assert!(!should_notify_at(&mut state, "k", 60, 1059));
    assert!(should_notify_at(&mut state, "k", 60, 1060));
    assert!(!should_notify_at(&mut state, "k", 60, 1100));
    assert!(should_notify_at(&mut state, "j", 60, 1100));
    assert_eq!(state.notified.len(), 2);
    // A clock that went backwards counts as no time elapsed.
    assert!(!should_notify_at(&mut state, "j", 60, 10));
    assert!(should_notify_at(&mut state, "z", 0, 5));
    assert!(should_notify_at(&mut state, "z", 0, 5));
}

#[test]
fn test_graduated_nice_value_cpu_tiers() {
    assert_eq!(graduated_nice_value(100, 0, 5), 5);
    assert_eq!(graduated_nice_value(180, 0, 5), 5);
    assert_eq!(graduated_nice_value(250, 0, 5), 5);
    assert_eq!(graduated_nice_value(300, 0, 5), 10);
    assert_eq!(graduated_nice_value(450, 0, 5), 10);
    assert_eq!(graduated_nice_value(500, 0, 5), 15);
    assert_eq!(graduated_nice_value(900, 0, 5), 15);
}

#[test]
fn test_graduated_nice_value_memory_tiers() {
    assert_eq!(graduated_nice_value(0, 2000, 5), 5);
    assert_eq!(graduated_nice_value(0, 4096, 5), 5);
    assert_eq!(graduated_nice_value(0, 5000, 5), 5);
    assert_eq!(graduated_nice_value(0, 8192, 5), 10);
    assert_eq!(graduated_nice_value(0, 16000, 5), 10);
}

#[test]
fn test_graduated_nice_value_cpu_plus_memory() {
    assert_eq!(graduated_nice_value(300, 8192, 5), 10);
    assert_eq!(graduated_nice_value(500, 4096, 5), 15);
    assert_eq!(graduated_nice_value(180, 8192, 5), 10);
}

#[test]
fn test_graduated_nice_value_clamped() {
    assert_eq!(graduated_nice_value(0, 0, 5), 5);
    assert_eq!(graduated_nice_value(0, 0, 0), 0);
}

#[test]
fn test_graduated_nice_value_negative_base_clamped() {
    assert_eq!(graduated_nice_value(0, 0, -5), 0);
}

#[test]
fn test_graduated_nice_value_high_base_clamped() {
    assert_eq!(graduated_nice_value(0, 0, 20), 19);
}

#[test]
fn test_graduated_nice_value_memory_boundary() {
    assert_eq!(graduated_nice_value(0, 4095, 0), 0);
    assert_eq!(graduated_nice_value(0, 4096, 0), 5);
    assert_eq!(graduated_nice_value(0, 8191, 0), 5);
    assert_eq!(graduated_nice_value(0, 8192, 0), 10);
}

#[test]
fn guard_safe_delete_allows_paths_under_system_protected() {
    let result = check_safe_to_delete_guard("/home/user/tmp/target", false, &[]);
    assert!(result.is_ok());
    assert_eq!(result.unwrap(), "/home/user/tmp/target");
}

#[test]
fn guard_safe_delete_blocks_user_protected() {
    let user_protected = vec!["/tmp/guard_safe_2".to_string()];
    let result = check_safe_to_delete_guard("/tmp/guard_safe_2/target", false, &user_protected);
    assert_eq!(result, Err(DeleteRefusal::Protected));
}

#[test]
fn guard_safe_delete_rejects_symlink() {
    let result = check_safe_to_delete_guard("/tmp/guard_safe_3/real_target", true, &[]);
    assert_eq!(result, Err(DeleteRefusal::Symlink));
}

#[test]
fn guard_safe_delete_rejects_exact_system_roots() {
    for prot in system_protected_paths() {
        let result = check_safe_to_delete_guard(prot, false, &[]);
        assert!(result.is_err(), "guard safe delete should reject exact protected system root {prot}");
    }
}

#[test]
fn check_safe_to_delete_rejects_log_symlink_before_truncate() {
    let result = check_safe_to_delete("/tmp/log_symlink/real.log", true, &[]);
    assert_eq!(result, Err(DeleteRefusal::Symlink));
}

#[test]
fn strict_check_refuses_what_lies_under_system_paths() {
    assert_eq!(check_safe_to_delete("/home/user/x", false, &[]), Err(DeleteRefusal::Protected));
    assert_eq!(check_safe_to_delete("/srvx/y", false, &[]), Ok("/srvx/y".to_string()));
    assert!(check_safe_to_delete_guard("/home/user/x", false, &[]).is_ok());
}

#[test]
fn proactive_cleanup_defaults() {
    assert_eq!(default_proactive_cleanup_percent(), 50);
    assert_eq!(default_rust_target_max_age_days(), 14);
    assert_eq!(default_proactive_cleanup_interval_cycles(), 120);
}

#[test]
fn normalize_proactive_cleanup_percent_bounded_by_action() {
    let policy = GuardPolicy {
        disk_action_percent: 85,
        proactive_cleanup_percent: 90,
        ..Default::default()
    };
    let mut policy = policy;
    normalize_guard_policy(&mut policy);
    assert!(policy.proactive_cleanup_percent < policy.disk_action_percent);
}

#[test]
fn normalize_rust_target_max_age_days_min_1() {
    let policy = GuardPolicy { rust_target_max_age_days: 0, ..Default::default() };
    let mut policy = policy;
    normalize_guard_policy(&mut policy);
    assert!(policy.rust_target_max_age_days >= 1);
}

#[test]
fn normalize_proactive_interval_min_1() {
    let policy = GuardPolicy { proactive_cleanup_interval_cycles: 0, ..Default::default() };
    let mut policy = policy;
    normalize_guard_policy(&mut policy);
    assert!(policy.proactive_cleanup_interval_cycles >= 1);
}

#[test]
fn normalize_is_idempotent_on_a_concrete_policy() {
    let mut p = GuardPolicy {
        disk_action_percent: 40,
        proactive_cleanup_percent: 77,
        rust_target_max_age_days: 0,
        proactive_cleanup_interval_cycles: 0,
        ..Default::default()
    };
    normalize_guard_policy(&mut p);
    assert_eq!(p.proactive_cleanup_percent, 39);
    assert_eq!(p.rust_target_max_age_days, 1);
    assert_eq!(p.proactive_cleanup_interval_cycles, 1);
    normalize_guard_policy(&mut p);
    assert_eq!(p.proactive_cleanup_percent, 39);
    assert_eq!(p.rust_target_max_age_days, 1);
    assert_eq!(p.proactive_cleanup_interval_cycles, 1);
}

#[test]
fn guard_runtime_state_default_cycle_zero() {
    let state = GuardRuntimeState::default();
    assert_eq!(state.guard_cycle, 0);
    assert!(state.last_proactive_cleanup.is_none());
}

#[test]
fn target_dir_info_has_mtime() {
    let info = TargetDirInfo {
        path: "/tmp/test/target".to_string(),
        bytes: 1024,
        mtime_secs_ago: 86400 * 15,
    };
    assert_eq!(info.mtime_secs_ago, 86400 * 15);
    assert_eq!(info.bytes, 1024);
}
