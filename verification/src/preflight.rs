//! The checks made before a relocation, a quarantine move or a restore, in
//! the order in which they are made. Each check needs one look at the
//! filesystem (or at git); the caller makes the look that the verdict asks
//! for, records what it saw, and asks again, until the verdict refuses or
//! lets the operation go ahead. A look is only asked for once every earlier
//! check has passed.

use vstd::prelude::*;
use crate::protect::DeleteRefusal;

verus! {

/// What a path is, looked at without following a final symlink.
#[derive(Debug, Clone, Copy, PartialEq, Eq)]
pub enum PathKind {
    Symlink,
    Dir,
    Other,
}

/// The next step of a preflight: a look to make, a refusal, or the
/// go-ahead.
#[derive(Debug, Clone, Copy, PartialEq, Eq)]
pub enum Verdict<P, R> {
    Probe(P),
    Refuse(R),
    Ready,
}

/// The looks a relocation plan makes, in order.
#[derive(Debug, Clone, Copy, PartialEq, Eq)]
pub enum RelocateProbe {
    /// What the source is.
    Source,
    /// Whether the source may be deleted (it is removed after the copy).
    SourceSafety,
    /// Whether git tracks the source.
    Git,
    /// What the destination root is.
    DestRoot,
    /// Whether the source has a file name to carry over.
    FileName,
    /// Whether the destination is already taken.
    DestFree,
    /// Whether source and destination nest.
    Nesting,
}

/// Why a relocation is refused before anything moves.
#[derive(Debug, Clone, Copy, PartialEq, Eq)]
pub enum RelocateRefusal {
    SourceSymlink,
    SourceNotDir,
    Unsafe(DeleteRefusal),
    GitTracked,
    DestRootNotDir,
    NoFileName,
    DestExists,
    Nested,
}

/// What a relocation plan has seen so far (`None`: not looked at yet).
#[derive(Debug, Clone, Copy)]
pub struct RelocateFacts {
    /// Git-tracked sources may be relocated.
    pub allow_tracked: bool,
    pub source: Option<PathKind>,
    pub source_check: Option<Result<(), DeleteRefusal>>,
    pub in_git: Option<bool>,
    pub dest_root: Option<PathKind>,
    pub has_file_name: Option<bool>,
    pub dest_exists: Option<bool>,
    pub nested: Option<bool>,
}

/// The checks after the git gate: the destination root must be a real
/// directory, the source must have a file name, the destination must be
/// free, and source and destination must not nest.
pub open spec fn relocate_dest_next(f: RelocateFacts) -> Verdict<RelocateProbe, RelocateRefusal> {
    match f.dest_root {
        None => Verdict::Probe(RelocateProbe::DestRoot),
        Some(PathKind::Dir) => match f.has_file_name {
            None => Verdict::Probe(RelocateProbe::FileName),
            Some(false) => Verdict::Refuse(RelocateRefusal::NoFileName),
            Some(true) => match f.dest_exists {
                None => Verdict::Probe(RelocateProbe::DestFree),
                Some(true) => Verdict::Refuse(RelocateRefusal::DestExists),
                Some(false) => match f.nested {
                    None => Verdict::Probe(RelocateProbe::Nesting),
                    Some(true) => Verdict::Refuse(RelocateRefusal::Nested),
                    Some(false) => Verdict::Ready,
                },
            },
        },
        Some(_) => Verdict::Refuse(RelocateRefusal::DestRootNotDir),
    }
}

/// The relocation checks in order: the source must be a real directory
/// that may be deleted, and not tracked by git unless that is allowed; then
/// the destination checks.
pub open spec fn relocate_next(f: RelocateFacts) -> Verdict<RelocateProbe, RelocateRefusal> {
    match f.source {
        None => Verdict::Probe(RelocateProbe::Source),
        Some(PathKind::Symlink) => Verdict::Refuse(RelocateRefusal::SourceSymlink),
        Some(PathKind::Other) => Verdict::Refuse(RelocateRefusal::SourceNotDir),
        Some(PathKind::Dir) => match f.source_check {
            None => Verdict::Probe(RelocateProbe::SourceSafety),
            Some(Err(r)) => Verdict::Refuse(RelocateRefusal::Unsafe(r)),
            Some(Ok(())) => if f.allow_tracked {
                relocate_dest_next(f)
            } else {
                match f.in_git {
                    None => Verdict::Probe(RelocateProbe::Git),
                    Some(true) => Verdict::Refuse(RelocateRefusal::GitTracked),
                    Some(false) => relocate_dest_next(f),
                }
            },
        },
    }
}

fn relocate_dest_verdict(f: &RelocateFacts) -> (v: Verdict<RelocateProbe, RelocateRefusal>)
    ensures
        v == relocate_dest_next(*f),
{
    match f.dest_root {
        None => Verdict::Probe(RelocateProbe::DestRoot),
        Some(PathKind::Dir) => match f.has_file_name {
            None => Verdict::Probe(RelocateProbe::FileName),
            Some(false) => Verdict::Refuse(RelocateRefusal::NoFileName),
            Some(true) => match f.dest_exists {
                None => Verdict::Probe(RelocateProbe::DestFree),
                Some(true) => Verdict::Refuse(RelocateRefusal::DestExists),
                Some(false) => match f.nested {
                    None => Verdict::Probe(RelocateProbe::Nesting),
                    Some(true) => Verdict::Refuse(RelocateRefusal::Nested),
                    Some(false) => Verdict::Ready,
                },
            },
        },
        Some(_) => Verdict::Refuse(RelocateRefusal::DestRootNotDir),
    }
}

/// The next step of a relocation plan, given what it has seen.
pub fn relocate_verdict(f: &RelocateFacts) -> (v: Verdict<RelocateProbe, RelocateRefusal>)
    ensures
        v == relocate_next(*f),
{
    match f.source {
        None => Verdict::Probe(RelocateProbe::Source),
        Some(PathKind::Symlink) => Verdict::Refuse(RelocateRefusal::SourceSymlink),
        Some(PathKind::Other) => Verdict::Refuse(RelocateRefusal::SourceNotDir),
        Some(PathKind::Dir) => match f.source_check {
            None => Verdict::Probe(RelocateProbe::SourceSafety),
            Some(Err(r)) => Verdict::Refuse(RelocateRefusal::Unsafe(r)),
            Some(Ok(())) => if f.allow_tracked {
                relocate_dest_verdict(f)
            } else {
                match f.in_git {
                    None => Verdict::Probe(RelocateProbe::Git),
                    Some(true) => Verdict::Refuse(RelocateRefusal::GitTracked),
                    Some(false) => relocate_dest_verdict(f),
                }
            },
        },
    }
}

/// A relocation goes ahead only when every check has been made and passed:
/// a real directory that may be deleted, not git-tracked unless allowed, a
/// real destination root, a file name, a free destination, no nesting. With
/// tracked sources allowed, git is never consulted and never refuses. A
/// look is only ever asked for what has not been seen yet.
pub proof fn lemma_relocate_ready_only_after_every_check(f: RelocateFacts)
    ensures
        relocate_next(f) == Verdict::<RelocateProbe, RelocateRefusal>::Ready ==> {
            &&& f.source == Some(PathKind::Dir)
            &&& f.source_check matches Some(Ok(_))
            &&& (f.allow_tracked || f.in_git == Some(false))
            &&& f.dest_root == Some(PathKind::Dir)
            &&& f.has_file_name == Some(true)
            &&& f.dest_exists == Some(false)
            &&& f.nested == Some(false)
        },
        f.allow_tracked ==> relocate_next(f) != Verdict::<RelocateProbe, RelocateRefusal>::Probe(
            RelocateProbe::Git,
        ) && relocate_next(f) != Verdict::<RelocateProbe, RelocateRefusal>::Refuse(
            RelocateRefusal::GitTracked,
        ),
        relocate_next(f) matches Verdict::Probe(p) ==> match p {
            RelocateProbe::Source => f.source is None,
            RelocateProbe::SourceSafety => f.source_check is None,
            RelocateProbe::Git => f.in_git is None,
            RelocateProbe::DestRoot => f.dest_root is None,
            RelocateProbe::FileName => f.has_file_name is None,
            RelocateProbe::DestFree => f.dest_exists is None,
            RelocateProbe::Nesting => f.nested is None,
        },
{
}

/// The looks a quarantine move makes, in order.
#[derive(Debug, Clone, Copy, PartialEq, Eq)]
pub enum MoveProbe {
    /// What the origin is.
    Origin,
    /// Whether the origin may be deleted.
    OriginSafety,
    /// Whether origin and quarantine root nest (the root is made first).
    Nesting,
}

/// Why a quarantine move is refused before anything moves.
#[derive(Debug, Clone, Copy, PartialEq, Eq)]
pub enum MoveRefusal {
    OriginSymlink,
    OriginNotDir,
    Unsafe(DeleteRefusal),
    Nested,
}

/// What a quarantine move has seen so far (`None`: not looked at yet).
#[derive(Debug, Clone, Copy)]
pub struct MoveFacts {
    pub origin: Option<PathKind>,
    pub origin_check: Option<Result<(), DeleteRefusal>>,
    pub nested: Option<bool>,
}

/// The quarantine-move checks in order: the origin must be a real
/// directory that may be deleted, and must not nest with the root.
pub open spec fn move_next(f: MoveFacts) -> Verdict<MoveProbe, MoveRefusal> {
    match f.origin {
        None => Verdict::Probe(MoveProbe::Origin),
        Some(PathKind::Symlink) => Verdict::Refuse(MoveRefusal::OriginSymlink),
        Some(PathKind::Other) => Verdict::Refuse(MoveRefusal::OriginNotDir),
        Some(PathKind::Dir) => match f.origin_check {
            None => Verdict::Probe(MoveProbe::OriginSafety),
            Some(Err(r)) => Verdict::Refuse(MoveRefusal::Unsafe(r)),
            Some(Ok(())) => match f.nested {
                None => Verdict::Probe(MoveProbe::Nesting),
                Some(true) => Verdict::Refuse(MoveRefusal::Nested),
                Some(false) => Verdict::Ready,
            },
        },
    }
}

/// The next step of a quarantine move, given what it has seen.
pub fn move_verdict(f: &MoveFacts) -> (v: Verdict<MoveProbe, MoveRefusal>)
    ensures
        v == move_next(*f),
{
    match f.origin {
        None => Verdict::Probe(MoveProbe::Origin),
        Some(PathKind::Symlink) => Verdict::Refuse(MoveRefusal::OriginSymlink),
        Some(PathKind::Other) => Verdict::Refuse(MoveRefusal::OriginNotDir),
        Some(PathKind::Dir) => match f.origin_check {
            None => Verdict::Probe(MoveProbe::OriginSafety),
            Some(Err(r)) => Verdict::Refuse(MoveRefusal::Unsafe(r)),
            Some(Ok(())) => match f.nested {
                None => Verdict::Probe(MoveProbe::Nesting),
                Some(true) => Verdict::Refuse(MoveRefusal::Nested),
                Some(false) => Verdict::Ready,
            },
        },
    }
}

/// A quarantine move goes ahead only for a real directory that may be
/// deleted and does not nest with the quarantine root.
pub proof fn lemma_move_ready_only_after_every_check(f: MoveFacts)
    ensures
        move_next(f) == Verdict::<MoveProbe, MoveRefusal>::Ready ==> {
            &&& f.origin == Some(PathKind::Dir)
            &&& f.origin_check matches Some(Ok(_))
            &&& f.nested == Some(false)
        },
        move_next(f) matches Verdict::Probe(p) ==> match p {
            MoveProbe::Origin => f.origin is None,
            MoveProbe::OriginSafety => f.origin_check is None,
            MoveProbe::Nesting => f.nested is None,
        },
{
}

/// The looks a restore makes, in order.
#[derive(Debug, Clone, Copy, PartialEq, Eq)]
pub enum RestoreProbe {
    /// Whether the named entry is a directory under the root.
    Entry,
    /// Whether the entry's manifest can be read.
    Manifest,
    /// Whether the recorded origin is taken.
    Origin,
}

/// Why a restore is refused before anything moves.
#[derive(Debug, Clone, Copy, PartialEq, Eq)]
pub enum RestoreRefusal {
    NoSuchEntry,
    NoManifest,
    OriginExists,
}

/// What a restore has seen so far (`None`: not looked at yet).
#[derive(Debug, Clone, Copy)]
pub struct RestoreFacts {
    pub entry_is_dir: Option<bool>,
    pub has_manifest: Option<bool>,
    pub origin_exists: Option<bool>,
}

/// The restore checks in order: the entry must exist, its manifest must be
/// readable (no blind restore), and its origin must be free.
pub open spec fn restore_next(f: RestoreFacts) -> Verdict<RestoreProbe, RestoreRefusal> {
    match f.entry_is_dir {
        None => Verdict::Probe(RestoreProbe::Entry),
        Some(false) => Verdict::Refuse(RestoreRefusal::NoSuchEntry),
        Some(true) => match f.has_manifest {
            None => Verdict::Probe(RestoreProbe::Manifest),
            Some(false) => Verdict::Refuse(RestoreRefusal::NoManifest),
            Some(true) => match f.origin_exists {
                None => Verdict::Probe(RestoreProbe::Origin),
                Some(true) => Verdict::Refuse(RestoreRefusal::OriginExists),
                Some(false) => Verdict::Ready,
            },
        },
    }
}

/// The next step of a restore, given what it has seen.
pub fn restore_verdict(f: &RestoreFacts) -> (v: Verdict<RestoreProbe, RestoreRefusal>)
    ensures
        v == restore_next(*f),
{
    match f.entry_is_dir {
        None => Verdict::Probe(RestoreProbe::Entry),
        Some(false) => Verdict::Refuse(RestoreRefusal::NoSuchEntry),
        Some(true) => match f.has_manifest {
            None => Verdict::Probe(RestoreProbe::Manifest),
            Some(false) => Verdict::Refuse(RestoreRefusal::NoManifest),
            Some(true) => match f.origin_exists {
                None => Verdict::Probe(RestoreProbe::Origin),
                Some(true) => Verdict::Refuse(RestoreRefusal::OriginExists),
                Some(false) => Verdict::Ready,
            },
        },
    }
}

/// A restore goes ahead only for an existing entry with a readable manifest
/// whose origin is free: nothing is ever restored over an existing path.
pub proof fn lemma_restore_ready_only_after_every_check(f: RestoreFacts)
    ensures
        restore_next(f) == Verdict::<RestoreProbe, RestoreRefusal>::Ready ==> f.entry_is_dir
            == Some(true) && f.has_manifest == Some(true) && f.origin_exists == Some(false),
        restore_next(f) matches Verdict::Probe(p) ==> match p {
            RestoreProbe::Entry => f.entry_is_dir is None,
            RestoreProbe::Manifest => f.has_manifest is None,
            RestoreProbe::Origin => f.origin_exists is None,
        },
{
}

} // verus!
