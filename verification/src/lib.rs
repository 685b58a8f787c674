//! Decision logic of a local machine disk and process guard: byte sizes,
//! protected-path rules, link reconciliation, quarantine and relocation
//! planning, and the parsers for `df` and `ps` output.

pub mod text;
pub mod units;
pub mod kinds;
pub mod paths;
pub mod protect;
pub mod policy;
pub mod links;
pub mod naming;
pub mod sysparse;
pub mod quarantine;
pub mod preflight;
pub mod relocate;
pub mod runtime;

pub use kinds::{default_kinds, default_min_size_mb, parse_kinds, KindSet};
pub use links::{
    build_link_report, evaluate_link, link_action, LinkAction, LinkEntry, LinkEntryStatus,
    LinkPolicy, LinkProbe, LinkStatusReport,
};
pub use naming::{backup_name_for, now_unix, unique_name};
pub use paths::{
    display_home, display_home_with, expand_tilde, expand_tilde_with, file_name,
    is_protected_ancestor, join_path, lexical_normalize, paths_nest, sits_directly_under,
    starts_with_path,
};
pub use policy::{
    default_proactive_cleanup_interval_cycles, default_proactive_cleanup_percent,
    default_quarantine_dir, default_rust_target_max_age_days, disk_state, graduated_nice_value,
    normalize_guard_policy, GuardPolicy, StoragePolicy, SystemPolicy, TargetDirInfo,
};
pub use preflight::{
    move_verdict, relocate_verdict, restore_verdict, MoveFacts, MoveProbe, MoveRefusal, PathKind,
    RelocateFacts, RelocateProbe, RelocateRefusal, RestoreFacts, RestoreProbe, RestoreRefusal,
    Verdict,
};
pub use protect::{
    check_path_str, check_safe_to_delete, check_safe_to_delete_guard, system_protected_paths,
    DeleteRefusal,
};
pub use quarantine::{
    build_quarantine_list, entry_dir_for, expire_selection, manifest_name, quarantine_root,
    EntryScan, QuarantineEntry, QuarantineList, QuarantineManifest,
};
pub use relocate::{
    copy_verified, finish_plan, lists_tracked_files, policy_snippet, readiness_refusal,
    relocate_dest, relocate_report, RelocatePlan, RelocateReport,
};
pub use runtime::{should_notify, should_notify_at, GuardRuntimeState, NotifyMark};
pub use sysparse::{parse_df_details, parse_df_use_percent, parse_ps_output, DfDetails, ProcessRow};
pub use transfer::{
    new_transfer, transfer_step, Transfer, TransferAction, TransferEvent, TransferFailure,
    TransferState,
};
pub use units::human_bytes;
pub mod transfer;
