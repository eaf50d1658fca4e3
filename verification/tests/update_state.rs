use sov_sequencer::api::{
    batches_to_resume, sender_is_allowed, AcceptTx, AcceptedTx, Base64Blob, BlobToSend,
    EmptyConfirmation,
};
use sov_sequencer::preferred::db::DbEvent;
use sov_sequencer::preferred::update_state::{
    ReplayAction, ReplayInput, ReplayMachine, ReplayPhase, ReplayStep, ReplayTally,
};
use sov_sequencer::types::{FullyBakedTx, WithCachedTxHashes};

#[test]
fn replay_tally_counts_events() {
    let mut tally = ReplayTally::new(4);
    tally.record_completed_batch(4, 3);
    assert_eq!(tally.next_sequence_number, 5);
    assert_eq!(
        tally.do_next_event(&DbEvent::BatchStarted {
            sequence_number: 5,
            visible_slot_number_after_increase: 9,
            visible_slots_to_advance: 2,
        }),
        ReplayStep::StartRollupBlock { visible_slot_number_after_increase: 9, visible_slots_to_advance: 2 }
    );
    assert_eq!(tally.do_next_event(&DbEvent::TxAccepted(FullyBakedTx::new(vec![1]), [0; 32])), ReplayStep::ReplayTx);
    assert_eq!(tally.do_next_event(&DbEvent::ProofBlobAccepted(6)), ReplayStep::Nothing);
    assert!(tally.batch_is_in_progress);
    assert_eq!(tally.do_next_event(&DbEvent::BatchClosed(5)), ReplayStep::EndRollupBlock);
    assert_eq!(
        tally,
        ReplayTally {
            batches_count: 2,
            transactions_count: 4,
            batch_is_in_progress: false,
            next_sequence_number: 5
        }
    );
    tally.record_in_progress_batch(2);
    assert_eq!(tally.transactions_count, 6);
    assert!(tally.batch_is_in_progress);
}

#[test]
fn completed_batch_at_the_last_number_saturates() {
    let mut tally = ReplayTally::new(0);
    tally.record_completed_batch(u64::MAX, 0);
    assert_eq!(tally.next_sequence_number, u64::MAX);
}

#[test]
fn senders() {
    let admins = vec![vec![1, 2], vec![3]];
    assert!(sender_is_allowed(true, &vec![9], &admins));
    assert!(sender_is_allowed(false, &vec![3], &admins));
    assert!(!sender_is_allowed(false, &vec![1], &admins));
}

#[test]
fn accepted_transactions() {
    let request = AcceptTx { body: Base64Blob { blob: vec![1, 2, 3] } };
    let tx = request.into_tx();
    assert_eq!(tx.data, vec![1, 2, 3]);
    let accepted = AcceptedTx { tx, tx_hash: [5; 32], confirmation: EmptyConfirmation {} };
    let mapped = accepted.map_confirmation(|_| 7u32);
    assert_eq!(mapped.confirmation, 7);
    assert_eq!(mapped.tx_hash, [5; 32]);
}

#[test]
fn stored_batches_are_resumed_in_order_without_proofs() {
    let blobs = vec![
        BlobToSend::Proof(vec![7]),
        BlobToSend::Batch(WithCachedTxHashes { inner: vec![1, 2], tx_hashes: vec![[1u8; 32]] }),
        BlobToSend::Proof(vec![8]),
        BlobToSend::Batch(WithCachedTxHashes { inner: vec![3], tx_hashes: vec![] }),
    ];
    let resumed = batches_to_resume(blobs);
    assert_eq!(resumed.len(), 2);
    assert_eq!(resumed[0].inner, vec![1, 2]);
    assert_eq!(resumed[0].tx_hashes, vec![[1u8; 32]]);
    assert_eq!(resumed[1].inner, vec![3]);
    assert!(batches_to_resume(vec![BlobToSend::Proof(vec![1])]).is_empty());
}

#[test]
fn replay_goes_through_batches_then_the_batch_in_progress_then_events() {
    let mut m = ReplayMachine::new(4);
    // Events are ignored until the complete batches are done.
    assert_eq!(m.step(ReplayInput::Pending(3)), ReplayAction::Ignore);
    assert_eq!(m.step(ReplayInput::Fetched(vec![(4, 2), (5, 1)])), ReplayAction::ReplayCompleted);
    assert_eq!(m.tally.next_sequence_number, 6);
    assert_eq!(m.step(ReplayInput::Fetched(vec![(6, 3)])), ReplayAction::ReplayCompleted);
    assert_eq!(m.step(ReplayInput::Fetched(vec![])), ReplayAction::SubscribeAndFetchInProgress);
    assert_eq!(m.phase, ReplayPhase::AwaitingInProgress);
    assert_eq!(m.step(ReplayInput::InProgress(Some(2))), ReplayAction::ReplayInProgress);
    assert_eq!(m.step(ReplayInput::Pending(2)), ReplayAction::ReceiveEvent);
    assert_eq!(
        m.step(ReplayInput::Event(DbEvent::TxAccepted(FullyBakedTx::new(vec![1]), [0; 32]))),
        ReplayAction::Replay(ReplayStep::ReplayTx)
    );
    assert_eq!(m.step(ReplayInput::Pending(1)), ReplayAction::LockForFinalDrain);
    assert_eq!(
        m.step(ReplayInput::Event(DbEvent::BatchClosed(7))),
        ReplayAction::Replay(ReplayStep::EndRollupBlock)
    );
    assert_eq!(m.step(ReplayInput::NoEvent), ReplayAction::Finish);
    assert_eq!(m.phase, ReplayPhase::Finished);
    assert_eq!(
        m.tally,
        ReplayTally { batches_count: 4, transactions_count: 9, batch_is_in_progress: false, next_sequence_number: 7 }
    );
    assert_eq!(m.step(ReplayInput::NoEvent), ReplayAction::Ignore);
}

#[test]
fn replay_is_abandoned_on_shutdown() {
    let mut m = ReplayMachine::new(0);
    assert_eq!(m.step(ReplayInput::Fetched(vec![])), ReplayAction::SubscribeAndFetchInProgress);
    assert_eq!(m.step(ReplayInput::ShuttingDown), ReplayAction::Abort);
    assert_eq!(m.step(ReplayInput::InProgress(None)), ReplayAction::Ignore);
    assert_eq!(m.step(ReplayInput::ShuttingDown), ReplayAction::Ignore);
}
