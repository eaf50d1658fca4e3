use sov_sequencer::preferred::db::{
    batches_to_replay, completed_batches_to_replay, DbEvent, PreferredSequencerDb,
    PreferredSequencerReadBatch, PreferredSequencerReadBlob,
};
use sov_sequencer::types::FullyBakedTx;

fn expect_event(e: Option<DbEvent>) -> DbEvent {
    e.expect("the subscriber should get an event")
}

#[test]
fn test_event_stream() {
    let mut db = PreferredSequencerDb::new(vec![], None);
    db.subscribe_to_events();

    let (sequence_number, started) = db.start_batch(1, 1, 7);
    assert_eq!(sequence_number, 0);
    let tx1 = db.insert_tx(FullyBakedTx::new(vec![1u8; 100]), [0u8; 32]);
    let tx2 = db.insert_tx(FullyBakedTx::new(vec![2u8; 100]), [1u8; 32]);
    let (_, proof) = db.insert_proof_blob(0, vec![3u8; 100]);
    let (_, closed) = db.terminate_batch();

    match expect_event(started) {
        DbEvent::BatchStarted {
            sequence_number,
            visible_slot_number_after_increase,
            visible_slots_to_advance,
        } => {
            assert_eq!(sequence_number, 0);
            assert_eq!(visible_slot_number_after_increase, 1);
            assert_eq!(visible_slots_to_advance, 1);
        }
        other => panic!("unexpected {other:?}"),
    }
    match expect_event(tx1) {
        DbEvent::TxAccepted(tx, hash) => {
            assert_eq!(tx.data, vec![1u8; 100]);
            assert_eq!(hash, [0u8; 32]);
        }
        other => panic!("unexpected {other:?}"),
    }
    match expect_event(tx2) {
        DbEvent::TxAccepted(tx, hash) => {
            assert_eq!(tx.data, vec![2u8; 100]);
            assert_eq!(hash, [1u8; 32]);
        }
        other => panic!("unexpected {other:?}"),
    }
    assert!(matches!(expect_event(proof), DbEvent::ProofBlobAccepted(1)));
    assert!(matches!(expect_event(closed), DbEvent::BatchClosed(0)));
}

#[test]
fn no_events_without_a_subscriber() {
    let mut db = PreferredSequencerDb::new(vec![], None);
    let (_, started) = db.start_batch(1, 1, 7);
    assert!(started.is_none());
    db.subscribe_to_events();
    db.unsubscribe_from_events();
    assert!(db.insert_tx(FullyBakedTx::new(vec![1]), [0; 32]).is_none());
}

fn batch(sequence_number: u64, txs: usize) -> PreferredSequencerReadBatch {
    PreferredSequencerReadBatch {
        sequence_number,
        visible_slot_number_after_increase: sequence_number + 1,
        visible_slots_to_advance: 1,
        blob_id: 0,
        txs: (0..txs).map(|i| FullyBakedTx::new(vec![i as u8])).collect(),
        tx_hashes: (0..txs).map(|i| [i as u8; 32]).collect(),
    }
}

#[test]
fn restored_db_continues_after_the_greatest_sequence_number() {
    let db = PreferredSequencerDb::new(
        vec![PreferredSequencerReadBlob::Batch(batch(3, 1))],
        Some(batch(5, 0)),
    );
    assert_eq!(db.next_sequence_number(), 6);
    let db = PreferredSequencerDb::new(vec![PreferredSequencerReadBlob::Batch(batch(8, 1))], Some(batch(5, 0)));
    assert_eq!(db.next_sequence_number(), 9);
    let db = PreferredSequencerDb::new(vec![], None);
    assert_eq!(db.next_sequence_number(), 0);
}

#[test]
fn sequence_numbers_are_consecutive() {
    let mut db = PreferredSequencerDb::new(vec![], None);
    let (a, _) = db.start_batch(1, 1, 1);
    let (b, _) = db.insert_proof_blob(2, vec![1]);
    let (c, _) = db.insert_proof_blob(3, vec![2]);
    assert_eq!((a, b, c), (0, 1, 2));
    assert_eq!(db.next_sequence_number(), 3);
    db.overwrite_next_sequence_number(10);
    db.increment_next_sequence_number();
    assert_eq!(db.next_sequence_number(), 11);
}

#[test]
fn replay_selects_batches_from_a_sequence_number_then_the_one_in_progress() {
    let mut db = PreferredSequencerDb::new(
        vec![
            PreferredSequencerReadBlob::Batch(batch(0, 1)),
            PreferredSequencerReadBlob::Proof { blob_id: 0, sequence_number: 1, data: vec![1] },
            PreferredSequencerReadBlob::Batch(batch(2, 2)),
        ],
        None,
    );
    let completed = completed_batches_to_replay(&db, 1);
    assert_eq!(completed.len(), 1);
    assert_eq!(completed[0].batch.inner.sequence_number, 2);
    assert!(!completed[0].is_in_progress);

    db.start_batch(9, 1, 4);
    db.insert_tx(FullyBakedTx::new(vec![5]), [5; 32]);
    let all = batches_to_replay(&db, 0);
    assert_eq!(all.len(), 3);
    assert!(all[2].is_in_progress);
    assert_eq!(all[2].batch.inner.sequence_number, 3);
    assert_eq!(all[2].batch.inner.data[0].data, vec![5]);
    assert_eq!(all[2].visible_slot_number_after_increase, 9);
}

#[test]
fn prune_forgets_the_leading_blobs() {
    let mut db = PreferredSequencerDb::new(
        vec![
            PreferredSequencerReadBlob::Batch(batch(0, 1)),
            PreferredSequencerReadBlob::Batch(batch(1, 1)),
            PreferredSequencerReadBlob::Batch(batch(2, 1)),
        ],
        None,
    );
    db.prune(1);
    let left = db.all_completed_blobs_greater_than_or_equal_to(0);
    assert_eq!(left.len(), 1);
    assert_eq!(left[0].sequence_number(), 2);
}
