use dracon_system::{
    move_verdict, relocate_verdict, restore_verdict, DeleteRefusal, MoveFacts, MoveProbe,
    MoveRefusal, PathKind, RelocateFacts, RelocateProbe, RelocateRefusal, RestoreFacts,
    RestoreProbe, RestoreRefusal, Verdict,
};

fn unseen(allow_tracked: bool) -> RelocateFacts {
    RelocateFacts {
        allow_tracked,
        source: None,
        source_check: None,
        in_git: None,
        dest_root: None,
        has_file_name: None,
        dest_exists: None,
        nested: None,
    }
}

/// Answers each look with a passing result and records the looks asked for.
fn relocate_walk(mut f: RelocateFacts) -> (Vec<RelocateProbe>, Verdict<RelocateProbe, RelocateRefusal>) {
    let mut asked = Vec::new();
    loop {
        match relocate_verdict(&f) {
            Verdict::Probe(p) => {
                asked.push(p);
                match p {
                    RelocateProbe::Source => f.source = Some(PathKind::Dir),
                    RelocateProbe::SourceSafety => f.source_check = Some(Ok(())),
                    RelocateProbe::Git => f.in_git = Some(false),
                    RelocateProbe::DestRoot => f.dest_root = Some(PathKind::Dir),
                    RelocateProbe::FileName => f.has_file_name = Some(true),
                    RelocateProbe::DestFree => f.dest_exists = Some(false),
                    RelocateProbe::Nesting => f.nested = Some(false),
                }
            }
            v => return (asked, v),
        }
    }
}

#[test]
fn relocate_checks_run_in_order_then_go_ahead() {
    let (asked, v) = relocate_walk(unseen(false));
    assert_eq!(
        asked,
        vec![
            RelocateProbe::Source,
            RelocateProbe::SourceSafety,
            RelocateProbe::Git,
            RelocateProbe::DestRoot,
            RelocateProbe::FileName,
            RelocateProbe::DestFree,
            RelocateProbe::Nesting,
        ]
    );
    assert_eq!(v, Verdict::Ready);
}

#[test]
fn relocate_with_tracked_allowed_never_asks_git() {
    let (asked, v) = relocate_walk(unseen(true));
    assert!(!asked.contains(&RelocateProbe::Git));
    assert_eq!(asked.len(), 6);
    assert_eq!(v, Verdict::Ready);
    let mut f = unseen(true);
    f.source = Some(PathKind::Dir);
    f.source_check = Some(Ok(()));
    f.in_git = Some(true);
    assert_eq!(relocate_verdict(&f), Verdict::Probe(RelocateProbe::DestRoot));
}

#[test]
fn relocate_refusals_come_in_order() {
    let mut f = unseen(false);
    f.source = Some(PathKind::Symlink);
    f.dest_exists = Some(true);
    assert_eq!(relocate_verdict(&f), Verdict::Refuse(RelocateRefusal::SourceSymlink));
    f.source = Some(PathKind::Other);
    assert_eq!(relocate_verdict(&f), Verdict::Refuse(RelocateRefusal::SourceNotDir));
    f.source = Some(PathKind::Dir);
    f.source_check = Some(Err(DeleteRefusal::Protected));
    assert_eq!(
        relocate_verdict(&f),
        Verdict::Refuse(RelocateRefusal::Unsafe(DeleteRefusal::Protected))
    );
    f.source_check = Some(Ok(()));
    assert_eq!(relocate_verdict(&f), Verdict::Probe(RelocateProbe::Git));
    f.in_git = Some(true);
    assert_eq!(relocate_verdict(&f), Verdict::Refuse(RelocateRefusal::GitTracked));
    f.in_git = Some(false);
    f.dest_root = Some(PathKind::Symlink);
    assert_eq!(relocate_verdict(&f), Verdict::Refuse(RelocateRefusal::DestRootNotDir));
    f.dest_root = Some(PathKind::Dir);
    f.has_file_name = Some(false);
    assert_eq!(relocate_verdict(&f), Verdict::Refuse(RelocateRefusal::NoFileName));
    f.has_file_name = Some(true);
    assert_eq!(relocate_verdict(&f), Verdict::Refuse(RelocateRefusal::DestExists));
    f.dest_exists = Some(false);
    f.nested = Some(true);
    assert_eq!(relocate_verdict(&f), Verdict::Refuse(RelocateRefusal::Nested));
}

#[test]
fn quarantine_move_checks_origin_then_nesting() {
    let mut f = MoveFacts { origin: None, origin_check: None, nested: None };
    assert_eq!(move_verdict(&f), Verdict::Probe(MoveProbe::Origin));
    f.origin = Some(PathKind::Symlink);
    assert_eq!(move_verdict(&f), Verdict::Refuse(MoveRefusal::OriginSymlink));
    f.origin = Some(PathKind::Other);
    assert_eq!(move_verdict(&f), Verdict::Refuse(MoveRefusal::OriginNotDir));
    f.origin = Some(PathKind::Dir);
    assert_eq!(move_verdict(&f), Verdict::Probe(MoveProbe::OriginSafety));
    f.origin_check = Some(Err(DeleteRefusal::Symlink));
    assert_eq!(move_verdict(&f), Verdict::Refuse(MoveRefusal::Unsafe(DeleteRefusal::Symlink)));
    f.origin_check = Some(Ok(()));
    assert_eq!(move_verdict(&f), Verdict::Probe(MoveProbe::Nesting));
    f.nested = Some(true);
    assert_eq!(move_verdict(&f), Verdict::Refuse(MoveRefusal::Nested));
    f.nested = Some(false);
    assert_eq!(move_verdict(&f), Verdict::Ready);
}

#[test]
fn restore_never_goes_over_an_existing_origin() {
    let mut f = RestoreFacts { entry_is_dir: None, has_manifest: None, origin_exists: None };
    assert_eq!(restore_verdict(&f), Verdict::Probe(RestoreProbe::Entry));
    f.entry_is_dir = Some(false);
    assert_eq!(restore_verdict(&f), Verdict::Refuse(RestoreRefusal::NoSuchEntry));
    f.entry_is_dir = Some(true);
    assert_eq!(restore_verdict(&f), Verdict::Probe(RestoreProbe::Manifest));
    f.has_manifest = Some(false);
    assert_eq!(restore_verdict(&f), Verdict::Refuse(RestoreRefusal::NoManifest));
    f.has_manifest = Some(true);
    assert_eq!(restore_verdict(&f), Verdict::Probe(RestoreProbe::Origin));
    f.origin_exists = Some(true);
    assert_eq!(restore_verdict(&f), Verdict::Refuse(RestoreRefusal::OriginExists));
    f.origin_exists = Some(false);
    assert_eq!(restore_verdict(&f), Verdict::Ready);
}
