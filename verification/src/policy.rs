//! The guard's policy: thresholds, defaults, normalization, and the
//! decisions that read them (disk state, renice level).

use vstd::prelude::*;
use crate::kinds::default_kinds;
use crate::links::LinkPolicy;

verus! {

/// Thresholds and switches of the disk and process guard.
#[derive(Debug, Clone)]
pub struct GuardPolicy {
    /// Mount whose usage is watched.
    pub disk_mount_path: String,
    /// Usage percent at which the disk is in the warn state.
    pub disk_warn_percent: u8,
    /// Usage percent at which cleanup actions start.
    pub disk_action_percent: u8,
    /// Usage percent at which the disk is critical.
    pub disk_critical_percent: u8,
    /// Whether sync daemons are frozen at the action level.
    pub freeze_sync_at_action: bool,
    /// Whether usage history is kept to predict filling.
    pub track_trends: bool,
    /// Whether cleanup deletes (otherwise it only reports).
    pub auto_cleanup_apply: bool,
    /// Usage percent from which proactive cleanup runs; kept below the
    /// action level.
    pub proactive_cleanup_percent: u8,
    /// Age, in days, after which a Rust `target/` directory is stale.
    pub rust_target_max_age_days: u64,
    /// Guard passes between two proactive cleanups.
    pub proactive_cleanup_interval_cycles: u64,
    /// Paths that no cleanup may touch, with what lies beneath them.
    pub protected_paths: Vec<String>,
    /// Root of the quarantine; empty means the default location.
    pub quarantine_dir: String,
    /// Days a quarantined entry is kept; 0 keeps entries forever.
    pub quarantine_ttl_days: u64,
    /// Whether memory and swap pressure are watched.
    pub monitor_memory: bool,
    /// Free-memory percent under which memory pressure is reported.
    pub mem_available_warn_percent: u8,
    /// Swap-use percent over which swap pressure is reported.
    pub swap_used_warn_percent: u8,
    /// Whether top memory users are reniced under pressure.
    pub auto_renice_on_memory: bool,
    /// Whether top memory users get a raised OOM score under critical pressure.
    pub bias_oom_on_pressure: bool,
    /// CPU quota, in percent, for offenders under critical pressure; 0 is off.
    pub cap_offenders_cpu_percent: u32,
    /// Seconds after which a still-heavy process is reported as stuck.
    pub process_stuck_after_secs: u64,
    /// Fill rate, in GiB per hour, that raises the rapid-fill alert.
    pub disk_rapid_fill_gbph: u64,
    /// Whether the trash is scanned for credential files before emptying.
    pub trash_credential_guard: bool,
}

pub fn default_disk_warn_percent() -> (n: u8)
    ensures
        n == 80,
{
    80
}

pub fn default_disk_action_percent() -> (n: u8)
    ensures
        n == 90,
{
    90
}

pub fn default_disk_critical_percent() -> (n: u8)
    ensures
        n == 95,
{
    95
}

pub fn default_proactive_cleanup_percent() -> (n: u8)
    ensures
        n == 50,
{
    50
}

pub fn default_rust_target_max_age_days() -> (n: u64)
    ensures
        n == 14,
{
    14
}

pub fn default_proactive_cleanup_interval_cycles() -> (n: u64)
    ensures
        n == 120,
{
    120
}

pub fn default_quarantine_ttl_days() -> (n: u64)
    ensures
        n == 30,
{
    30
}

/// Where the quarantine lives when the policy names no directory.
pub fn default_quarantine_dir() -> (s: String)
    ensures
        s@ == "~/.dracon/quarantine"@,
{
    "~/.dracon/quarantine".to_owned()
}

impl Default for GuardPolicy {
    fn default() -> (p: GuardPolicy)
        ensures
            p.disk_mount_path@ == "/"@,
            p.disk_warn_percent == 80,
            p.disk_action_percent == 90,
            p.disk_critical_percent == 95,
            p.freeze_sync_at_action,
            p.track_trends,
            !p.auto_cleanup_apply,
            p.proactive_cleanup_percent == 50,
            p.rust_target_max_age_days == 14,
            p.proactive_cleanup_interval_cycles == 120,
            p.protected_paths@.len() == 0,
            p.quarantine_dir@.len() == 0,
            p.quarantine_ttl_days == 30,
            p.monitor_memory,
            p.mem_available_warn_percent == 10,
            p.swap_used_warn_percent == 50,
            p.auto_renice_on_memory,
            p.bias_oom_on_pressure,
            p.cap_offenders_cpu_percent == 0,
            p.process_stuck_after_secs == 600,
            p.disk_rapid_fill_gbph == 20,
            p.trash_credential_guard,
    {
        GuardPolicy {
            disk_mount_path: "/".to_owned(),
            disk_warn_percent: default_disk_warn_percent(),
            disk_action_percent: default_disk_action_percent(),
            disk_critical_percent: default_disk_critical_percent(),
            freeze_sync_at_action: true,
            track_trends: true,
            auto_cleanup_apply: false,
            proactive_cleanup_percent: default_proactive_cleanup_percent(),
            rust_target_max_age_days: default_rust_target_max_age_days(),
            proactive_cleanup_interval_cycles: default_proactive_cleanup_interval_cycles(),
            protected_paths: Vec::new(),
            quarantine_dir: String::new(),
            quarantine_ttl_days: default_quarantine_ttl_days(),
            monitor_memory: true,
            mem_available_warn_percent: 10,
            swap_used_warn_percent: 50,
            auto_renice_on_memory: true,
            bias_oom_on_pressure: true,
            cap_offenders_cpu_percent: 0,
            process_stuck_after_secs: 600,
            disk_rapid_fill_gbph: 20,
            trash_credential_guard: true,
        }
    }
}

/// Settings of the build-artifact scan.
#[derive(Debug, Clone)]
pub struct StoragePolicy {
    /// Smallest artifact, in MiB, worth reporting.
    pub min_size_mb: u64,
    /// Comma-separated kinds of artifacts to look for.
    pub kinds: String,
}

impl Default for StoragePolicy {
    fn default() -> (p: StoragePolicy)
        ensures
            p.min_size_mb == 512,
            p.kinds@ == "rust-build,node-deps,build-output,cache"@,
    {
        StoragePolicy { min_size_mb: crate::kinds::default_min_size_mb(), kinds: default_kinds() }
    }
}

/// The whole policy file: storage scan, managed links, guard.
#[derive(Debug, Clone)]
pub struct SystemPolicy {
    pub storage: StoragePolicy,
    pub links: LinkPolicy,
    pub guard: GuardPolicy,
}

impl Default for SystemPolicy {
    fn default() -> (p: SystemPolicy)
        ensures
            p.storage.min_size_mb == 512,
            p.links.entries@.len() == 0,
            p.guard.disk_action_percent == 90,
    {
        SystemPolicy {
            storage: StoragePolicy::default(),
            links: LinkPolicy::default(),
            guard: GuardPolicy::default(),
        }
    }
}

/// The guard policy after normalization: a stale age and an interval of at
/// least 1, and a proactive level below the action level.
pub open spec fn normalized(p: GuardPolicy) -> GuardPolicy {
    GuardPolicy {
        rust_target_max_age_days: if p.rust_target_max_age_days == 0 {
            1
        } else {
            p.rust_target_max_age_days
        },
        proactive_cleanup_interval_cycles: if p.proactive_cleanup_interval_cycles == 0 {
            1
        } else {
            p.proactive_cleanup_interval_cycles
        },
        proactive_cleanup_percent: if p.proactive_cleanup_percent >= p.disk_action_percent {
            if p.disk_action_percent == 0 {
                0
            } else {
                (p.disk_action_percent - 1) as u8
            }
        } else {
            p.proactive_cleanup_percent
        },
        ..p
    }
}

/// Repairs settings that would stall or misorder the guard.
pub fn normalize_guard_policy(policy: &mut GuardPolicy)
    ensures
        *final(policy) == normalized(*old(policy)),
{
    if policy.rust_target_max_age_days == 0 {
        policy.rust_target_max_age_days = 1;
    }
    if policy.proactive_cleanup_interval_cycles == 0 {
        policy.proactive_cleanup_interval_cycles = 1;
    }
    if policy.proactive_cleanup_percent >= policy.disk_action_percent {
        policy.proactive_cleanup_percent = policy.disk_action_percent.saturating_sub(1);
    }
}

/// After normalization the stale age and interval are at least 1 and, when
/// the action level is above 0, the proactive level is below it; normalizing
/// again changes nothing.
pub proof fn lemma_normalized_properties(p: GuardPolicy)
    ensures
        normalized(p).rust_target_max_age_days >= 1,
        normalized(p).proactive_cleanup_interval_cycles >= 1,
        p.disk_action_percent > 0 ==> normalized(p).proactive_cleanup_percent
            < normalized(p).disk_action_percent,
        normalized(normalized(p)) == normalized(p),
{
}

/// The state of a disk at a usage percent.
pub open spec fn disk_state_name(use_percent: u8, g: GuardPolicy) -> Seq<char> {
    if use_percent >= g.disk_critical_percent {
        "critical"@
    } else if use_percent >= g.disk_action_percent {
        "action"@
    } else if use_percent >= g.disk_warn_percent {
        "warn"@
    } else {
        "ok"@
    }
}

/// Classifies disk usage against the policy's thresholds, highest first:
/// `critical`, `action`, `warn`, else `ok`.
pub fn disk_state(use_percent: u8, guard: &GuardPolicy) -> (s: &'static str)
    ensures
        s@ == disk_state_name(use_percent, *guard),
{
    if use_percent >= guard.disk_critical_percent {
        "critical"
    } else if use_percent >= guard.disk_action_percent {
        "action"
    } else if use_percent >= guard.disk_warn_percent {
        "warn"
    } else {
        "ok"
    }
}

/// The nice level that CPU use earns: 15 from 500 %, 10 from 300 %.
pub open spec fn cpu_nice_tier(cpu_percent: u32) -> int {
    if cpu_percent >= 500 {
        15
    } else if cpu_percent >= 300 {
        10
    } else {
        0
    }
}

/// The nice level that memory use earns: 10 from 8 GiB, 5 from 4 GiB.
pub open spec fn mem_nice_tier(rss_mb: u64) -> int {
    if rss_mb >= 8192 {
        10
    } else if rss_mb >= 4096 {
        5
    } else {
        0
    }
}

pub open spec fn max3(a: int, b: int, c: int) -> int {
    if a >= b && a >= c {
        a
    } else if b >= c {
        b
    } else {
        c
    }
}

/// The renice level: the highest of the base and the two tiers, kept within
/// the nice range `0..=19`.
pub open spec fn graduated_nice(cpu_percent: u32, rss_mb: u64, base: i32) -> int {
    let v = max3(base as int, cpu_nice_tier(cpu_percent), mem_nice_tier(rss_mb));
    if v < 0 {
        0
    } else if v > 19 {
        19
    } else {
        v
    }
}

/// The nice value for a heavy process. `cpu_percent` is the whole part of
/// the CPU use that `ps` reports (the tiers compare against whole numbers,
/// so the fraction never changes the outcome).
pub fn graduated_nice_value(cpu_percent: u32, rss_mb: u64, base: i32) -> (n: i32)
    ensures
        n == graduated_nice(cpu_percent, rss_mb, base),
        0 <= n <= 19,
{
    let cpu_tier: i32 = if cpu_percent >= 500 {
        15
    } else if cpu_percent >= 300 {
        10
    } else {
        0
    };
    let mem_tier: i32 = if rss_mb >= 8192 {
        10
    } else if rss_mb >= 4096 {
        5
    } else {
        0
    };
    let mut v = base;
    if cpu_tier > v {
        v = cpu_tier;
    }
    if mem_tier > v {
        v = mem_tier;
    }
    if v < 0 {
        0
    } else if v > 19 {
        19
    } else {
        v
    }
}

/// More CPU or more memory never lowers the renice level.
pub proof fn lemma_graduated_nice_monotone(c1: u32, c2: u32, m1: u64, m2: u64, base: i32)
    requires
        c1 <= c2,
        m1 <= m2,
    ensures
        graduated_nice(c1, m1, base) <= graduated_nice(c2, m2, base),
        graduated_nice(c1, m1, base) >= if base < 0 { 0 } else if base > 19 { 19 } else { base as int },
{
}

} // verus!

verus! {

/// A Rust `target/` directory found by the artifact scan.
#[derive(Debug, Clone)]
pub struct TargetDirInfo {
    pub path: String,
    pub bytes: u64,
    pub mtime_secs_ago: u64,
}

} // verus!
