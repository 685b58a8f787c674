//! Moving a directory tree without losing it: try a rename, else copy,
//! check the copy by file count and bytes, and only then remove the source.
//! The caller performs each action on the filesystem and reports back.

use vstd::prelude::*;
use crate::relocate::copy_verified;

verus! {

/// Where a transfer stands.
#[derive(Debug, Clone, Copy, PartialEq, Eq)]
pub enum TransferState {
    Start,
    Renaming,
    Copying,
    Measuring,
    CleaningCopy,
    RemovingSource,
    Linking,
    Done,
    Failed,
}

/// What the caller must do next.
#[derive(Debug, Clone, Copy, PartialEq, Eq)]
pub enum TransferAction {
    /// Rename the source to the destination (same filesystem only).
    Rename,
    /// Copy the source tree to the destination.
    Copy,
    /// Count the files and bytes of the copy.
    Measure,
    /// Remove the incomplete copy; the source stays.
    RemoveCopy,
    /// Remove the source; its copy has been checked.
    RemoveSource,
    /// Leave a symlink at the source path pointing to the destination.
    CreateLink,
    /// The transfer is complete.
    Finished,
    /// The transfer stopped; see the failure.
    Abort(TransferFailure),
}

/// Why a transfer stopped.
#[derive(Debug, Clone, Copy, PartialEq, Eq)]
pub enum TransferFailure {
    CopyFailed,
    VerifyFailed,
    RemoveFailed,
    LinkFailed,
    OutOfOrder,
}

/// What the caller reports after an action.
#[derive(Debug, Clone, Copy, PartialEq, Eq)]
pub enum TransferEvent {
    /// The transfer is to begin.
    Begin,
    /// The last rename, copy, removal or link succeeded or failed.
    Outcome(bool),
    /// Files and bytes counted in the copy.
    Measured(u64, u64),
}

/// A transfer in progress and its settings.
#[derive(Debug, Clone, Copy)]
pub struct Transfer {
    pub state: TransferState,
    /// Files and bytes that the source held.
    pub expected_files: u64,
    pub expected_bytes: u64,
    /// Try a rename before copying.
    pub try_rename: bool,
    /// Remove a copy that fails the check.
    pub remove_bad_copy: bool,
    /// Leave a symlink at the source once it is removed.
    pub link_after: bool,
    /// The copy has been counted and matched the source.
    pub verified: bool,
    /// The source was moved by a rename.
    pub renamed: bool,
}

/// A transfer that has not begun.
pub fn new_transfer(expected_files: u64, expected_bytes: u64, try_rename: bool, remove_bad_copy: bool, link_after: bool) -> (t: Transfer)
    ensures
        t.state == TransferState::Start,
        t.expected_files == expected_files,
        t.expected_bytes == expected_bytes,
        t.try_rename == try_rename,
        t.remove_bad_copy == remove_bad_copy,
        t.link_after == link_after,
        !t.verified,
        !t.renamed,
        transfer_safe(t),
{
    Transfer {
        state: TransferState::Start,
        expected_files,
        expected_bytes,
        try_rename,
        remove_bad_copy,
        link_after,
        verified: false,
        renamed: false,
    }
}

pub open spec fn with_state(t: Transfer, s: TransferState) -> Transfer {
    Transfer { state: s, ..t }
}

pub open spec fn fail(t: Transfer, why: TransferFailure) -> (Transfer, TransferAction) {
    (with_state(t, TransferState::Failed), TransferAction::Abort(why))
}

/// After the source is gone: leave the link or finish.
pub open spec fn after_removal(t: Transfer) -> (Transfer, TransferAction) {
    if t.link_after {
        (with_state(t, TransferState::Linking), TransferAction::CreateLink)
    } else {
        (with_state(t, TransferState::Done), TransferAction::Finished)
    }
}

/// The next state and action of a transfer on an event.
pub open spec fn transfer_next(t: Transfer, ev: TransferEvent) -> (Transfer, TransferAction) {
    match t.state {
        TransferState::Start => match ev {
            TransferEvent::Begin => if t.try_rename {
                (with_state(t, TransferState::Renaming), TransferAction::Rename)
            } else {
                (with_state(t, TransferState::Copying), TransferAction::Copy)
            },
            _ => fail(t, TransferFailure::OutOfOrder),
        },
        TransferState::Renaming => match ev {
            TransferEvent::Outcome(true) => after_removal(Transfer { renamed: true, ..t }),
            TransferEvent::Outcome(false) => (with_state(t, TransferState::Copying), TransferAction::Copy),
            _ => fail(t, TransferFailure::OutOfOrder),
        },
        TransferState::Copying => match ev {
            TransferEvent::Outcome(true) => (with_state(t, TransferState::Measuring), TransferAction::Measure),
            TransferEvent::Outcome(false) => fail(t, TransferFailure::CopyFailed),
            _ => fail(t, TransferFailure::OutOfOrder),
        },
        TransferState::Measuring => match ev {
            TransferEvent::Measured(f, b) => if f == t.expected_files && b == t.expected_bytes {
                (
                    Transfer { state: TransferState::RemovingSource, verified: true, ..t },
                    TransferAction::RemoveSource,
                )
            } else if t.remove_bad_copy {
                (with_state(t, TransferState::CleaningCopy), TransferAction::RemoveCopy)
            } else {
                fail(t, TransferFailure::VerifyFailed)
            },
            _ => fail(t, TransferFailure::OutOfOrder),
        },
        TransferState::CleaningCopy => match ev {
            TransferEvent::Outcome(_) => fail(t, TransferFailure::VerifyFailed),
            _ => fail(t, TransferFailure::OutOfOrder),
        },
        TransferState::RemovingSource => match ev {
            TransferEvent::Outcome(true) => after_removal(t),
            TransferEvent::Outcome(false) => fail(t, TransferFailure::RemoveFailed),
            _ => fail(t, TransferFailure::OutOfOrder),
        },
        TransferState::Linking => match ev {
            TransferEvent::Outcome(true) => (with_state(t, TransferState::Done), TransferAction::Finished),
            TransferEvent::Outcome(false) => fail(t, TransferFailure::LinkFailed),
            _ => fail(t, TransferFailure::OutOfOrder),
        },
        TransferState::Done => (t, TransferAction::Finished),
        TransferState::Failed => (t, TransferAction::Abort(TransferFailure::OutOfOrder)),
    }
}

fn state_of(t: &Transfer, s: TransferState) -> (r: Transfer)
    ensures
        r == with_state(*t, s),
{
    Transfer { state: s, ..*t }
}

fn after_removal_exec(t: &Transfer) -> (r: (Transfer, TransferAction))
    ensures
        r == after_removal(*t),
{
    if t.link_after {
        (state_of(t, TransferState::Linking), TransferAction::CreateLink)
    } else {
        (state_of(t, TransferState::Done), TransferAction::Finished)
    }
}

/// Advances a transfer by one event and says what to do next.
pub fn transfer_step(t: &mut Transfer, ev: TransferEvent) -> (a: TransferAction)
    ensures
        (*final(t), a) == transfer_next(*old(t), ev),
{
    let (n, a) = match t.state {
        TransferState::Start => match ev {
            TransferEvent::Begin => if t.try_rename {
                (state_of(t, TransferState::Renaming), TransferAction::Rename)
            } else {
                (state_of(t, TransferState::Copying), TransferAction::Copy)
            },
            _ => (state_of(t, TransferState::Failed), TransferAction::Abort(TransferFailure::OutOfOrder)),
        },
        TransferState::Renaming => match ev {
            TransferEvent::Outcome(true) => after_removal_exec(&Transfer { renamed: true, ..*t }),
            TransferEvent::Outcome(false) => (state_of(t, TransferState::Copying), TransferAction::Copy),
            _ => (state_of(t, TransferState::Failed), TransferAction::Abort(TransferFailure::OutOfOrder)),
        },
        TransferState::Copying => match ev {
            TransferEvent::Outcome(true) => (state_of(t, TransferState::Measuring), TransferAction::Measure),
            TransferEvent::Outcome(false) => (state_of(t, TransferState::Failed), TransferAction::Abort(TransferFailure::CopyFailed)),
            _ => (state_of(t, TransferState::Failed), TransferAction::Abort(TransferFailure::OutOfOrder)),
        },
        TransferState::Measuring => match ev {
            TransferEvent::Measured(f, b) => if copy_verified(t.expected_files, t.expected_bytes, f, b) {
                (
                    Transfer { state: TransferState::RemovingSource, verified: true, ..*t },
                    TransferAction::RemoveSource,
                )
            } else if t.remove_bad_copy {
                (state_of(t, TransferState::CleaningCopy), TransferAction::RemoveCopy)
            } else {
                (state_of(t, TransferState::Failed), TransferAction::Abort(TransferFailure::VerifyFailed))
            },
            _ => (state_of(t, TransferState::Failed), TransferAction::Abort(TransferFailure::OutOfOrder)),
        },
        TransferState::CleaningCopy => match ev {
            TransferEvent::Outcome(_) => (state_of(t, TransferState::Failed), TransferAction::Abort(TransferFailure::VerifyFailed)),
            _ => (state_of(t, TransferState::Failed), TransferAction::Abort(TransferFailure::OutOfOrder)),
        },
        TransferState::RemovingSource => match ev {
            TransferEvent::Outcome(true) => after_removal_exec(t),
            TransferEvent::Outcome(false) => (state_of(t, TransferState::Failed), TransferAction::Abort(TransferFailure::RemoveFailed)),
            _ => (state_of(t, TransferState::Failed), TransferAction::Abort(TransferFailure::OutOfOrder)),
        },
        TransferState::Linking => match ev {
            TransferEvent::Outcome(true) => (state_of(t, TransferState::Done), TransferAction::Finished),
            TransferEvent::Outcome(false) => (state_of(t, TransferState::Failed), TransferAction::Abort(TransferFailure::LinkFailed)),
            _ => (state_of(t, TransferState::Failed), TransferAction::Abort(TransferFailure::OutOfOrder)),
        },
        TransferState::Done => (*t, TransferAction::Finished),
        TransferState::Failed => (*t, TransferAction::Abort(TransferFailure::OutOfOrder)),
    };
    *t = n;
    a
}

/// What every reachable transfer state satisfies: once the source may be
/// removed, or is gone, either the copy was checked or the source was moved
/// by a rename; and nothing is checked that was not counted equal.
pub open spec fn transfer_safe(t: Transfer) -> bool {
    &&& (t.state == TransferState::RemovingSource ==> t.verified)
    &&& ((t.state == TransferState::Linking || t.state == TransferState::Done) ==> t.verified
        || t.renamed)
    &&& (t.state == TransferState::Start ==> !t.verified && !t.renamed)
    &&& (t.state == TransferState::Renaming || t.state == TransferState::Copying || t.state
        == TransferState::Measuring || t.state == TransferState::CleaningCopy) ==> !t.verified
}

/// A step never changes a transfer's settings. Once the source is gone (it
/// was removed after a checked copy, or renamed), a transfer made with
/// `link_after` leaves a symlink next and one made without it is finished;
/// and a transfer made without `link_after` never asks for a symlink nor
/// enters `Linking`.
pub proof fn lemma_link_only_when_asked(t: Transfer, ev: TransferEvent)
    ensures
        transfer_next(t, ev).0.link_after == t.link_after,
        transfer_next(t, ev).0.try_rename == t.try_rename,
        transfer_next(t, ev).0.remove_bad_copy == t.remove_bad_copy,
        transfer_next(t, ev).0.expected_files == t.expected_files,
        transfer_next(t, ev).0.expected_bytes == t.expected_bytes,
        (t.state == TransferState::RemovingSource || t.state == TransferState::Renaming) && ev
            == TransferEvent::Outcome(true) ==> if t.link_after {
            transfer_next(t, ev).0.state == TransferState::Linking && transfer_next(t, ev).1
                == TransferAction::CreateLink
        } else {
            transfer_next(t, ev).0.state == TransferState::Done && transfer_next(t, ev).1
                == TransferAction::Finished
        },
        !t.link_after && t.state != TransferState::Linking ==> transfer_next(t, ev).0.state
            != TransferState::Linking && transfer_next(t, ev).1 != TransferAction::CreateLink,
{
}

/// Rename, else copy and check: a transfer begins with a rename when asked
/// to try one and with a copy otherwise; a failed rename falls back to the
/// copy; a finished copy is measured; a copy that does not match the source
/// is removed (or the transfer stops) and the source stays; a matching copy
/// lets the source go.
pub proof fn lemma_rename_else_checked_copy(t: Transfer, ev: TransferEvent)
    ensures
        t.state == TransferState::Start && ev == TransferEvent::Begin ==> transfer_next(t, ev).1 == if t.try_rename {
            TransferAction::Rename
        } else {
            TransferAction::Copy
        },
        t.state == TransferState::Renaming && ev == TransferEvent::Outcome(false) ==> transfer_next(t, ev).1
            == TransferAction::Copy && transfer_next(t, ev).0.state == TransferState::Copying,
        t.state == TransferState::Copying && ev == TransferEvent::Outcome(true) ==> transfer_next(t, ev).1
            == TransferAction::Measure,
        t.state == TransferState::Copying && ev == TransferEvent::Outcome(false) ==> transfer_next(t, ev).1
            == TransferAction::Abort(TransferFailure::CopyFailed),
        t.state == TransferState::Measuring ==> (ev matches TransferEvent::Measured(f, b) ==> if f
            == t.expected_files && b == t.expected_bytes {
            transfer_next(t, ev).1 == TransferAction::RemoveSource
        } else if t.remove_bad_copy {
            transfer_next(t, ev).1 == TransferAction::RemoveCopy
        } else {
            transfer_next(t, ev).1 == TransferAction::Abort(TransferFailure::VerifyFailed)
        }),
        t.state == TransferState::CleaningCopy ==> transfer_next(t, ev).1 != TransferAction::RemoveSource
            && transfer_next(t, ev).0.state == TransferState::Failed,
{
}

/// A new transfer is safe, every step keeps it safe, and the source is only
/// ever removed after its copy was counted equal to it: a copy that fails
/// the check leaves the source in place.
pub proof fn lemma_transfer_never_loses_source(t: Transfer, ev: TransferEvent)
    requires
        transfer_safe(t),
    ensures
        transfer_safe(transfer_next(t, ev).0),
        transfer_next(t, ev).1 == TransferAction::RemoveSource ==> transfer_next(t, ev).0.verified
            && t.state == TransferState::Measuring && ev == TransferEvent::Measured(
            t.expected_files,
            t.expected_bytes,
        ),
{
}

} // verus!
