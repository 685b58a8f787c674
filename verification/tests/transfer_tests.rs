use dracon_system::{
    new_transfer, transfer_step, TransferAction, TransferEvent, TransferFailure, TransferState,
};

#[test]
fn relocation_copies_checks_removes_and_links() {
    let mut t = new_transfer(2, 11, false, false, true);
    assert_eq!(transfer_step(&mut t, TransferEvent::Begin), TransferAction::Copy);
    assert_eq!(transfer_step(&mut t, TransferEvent::Outcome(true)), TransferAction::Measure);
    assert_eq!(transfer_step(&mut t, TransferEvent::Measured(2, 11)), TransferAction::RemoveSource);
    assert!(t.verified);
    assert_eq!(transfer_step(&mut t, TransferEvent::Outcome(true)), TransferAction::CreateLink);
    assert_eq!(transfer_step(&mut t, TransferEvent::Outcome(true)), TransferAction::Finished);
    assert_eq!(t.state, TransferState::Done);
}

#[test]
fn mismatched_copy_leaves_source_untouched() {
    let mut t = new_transfer(2, 11, false, false, true);
    transfer_step(&mut t, TransferEvent::Begin);
    transfer_step(&mut t, TransferEvent::Outcome(true));
    assert_eq!(
        transfer_step(&mut t, TransferEvent::Measured(2, 10)),
        TransferAction::Abort(TransferFailure::VerifyFailed)
    );
    assert_eq!(t.state, TransferState::Failed);
    assert_ne!(transfer_step(&mut t, TransferEvent::Outcome(true)), TransferAction::RemoveSource);
}

#[test]
fn quarantine_move_prefers_rename_and_cleans_bad_copies() {
    let mut t = new_transfer(2, 11, true, true, false);
    assert_eq!(transfer_step(&mut t, TransferEvent::Begin), TransferAction::Rename);
    assert_eq!(transfer_step(&mut t, TransferEvent::Outcome(true)), TransferAction::Finished);
    assert!(t.renamed);

    let mut t = new_transfer(2, 11, true, true, false);
    transfer_step(&mut t, TransferEvent::Begin);
    assert_eq!(transfer_step(&mut t, TransferEvent::Outcome(false)), TransferAction::Copy);
    assert_eq!(transfer_step(&mut t, TransferEvent::Outcome(true)), TransferAction::Measure);
    assert_eq!(transfer_step(&mut t, TransferEvent::Measured(1, 11)), TransferAction::RemoveCopy);
    assert_eq!(
        transfer_step(&mut t, TransferEvent::Outcome(true)),
        TransferAction::Abort(TransferFailure::VerifyFailed)
    );
}

#[test]
fn out_of_order_events_abort() {
    let mut t = new_transfer(1, 1, false, false, false);
    assert_eq!(
        transfer_step(&mut t, TransferEvent::Measured(1, 1)),
        TransferAction::Abort(TransferFailure::OutOfOrder)
    );
    let mut t = new_transfer(1, 1, false, false, false);
    transfer_step(&mut t, TransferEvent::Begin);
    assert_eq!(
        transfer_step(&mut t, TransferEvent::Outcome(false)),
        TransferAction::Abort(TransferFailure::CopyFailed)
    );
}
