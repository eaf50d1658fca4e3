use sov_sequencer::api::SequenceNumberProvider;
use sov_sequencer::preferred::bb_db::{
    batches_to_process, calculate_sequence_number_of_next_blob, InProgressBatchInfo, PreferredBbDb,
    PreferredBbDbBlob, PreferredProofData,
};
use sov_sequencer::standard::mempool::SeqDbTx;
use sov_sequencer::types::FullyBakedTx;

fn seq_tx(byte: u8, uuid_v7: u128) -> SeqDbTx {
    SeqDbTx { tx: FullyBakedTx::new(vec![byte]), hash: [byte; 32], uuid_v7 }
}

fn proof_blob(sequence_number: u64) -> PreferredBbDbBlob {
    PreferredBbDbBlob::Proof(PreferredProofData { data: vec![9], sequence_number })
}

#[test]
fn next_sequence_number_of_a_reopened_store() {
    assert_eq!(calculate_sequence_number_of_next_blob(Some(4), Some(7)), 8);
    assert_eq!(calculate_sequence_number_of_next_blob(Some(7), Some(4)), 8);
    assert_eq!(calculate_sequence_number_of_next_blob(Some(3), None), 4);
    assert_eq!(calculate_sequence_number_of_next_blob(None, Some(3)), 4);
    assert_eq!(calculate_sequence_number_of_next_blob(None, None), 0);
    let db = PreferredBbDb::new(vec![proof_blob(2), proof_blob(5)], None, vec![], vec![]);
    assert_eq!(db.next_sequence_number(), 6);
}

#[test]
fn batch_lifecycle() {
    let mut db = PreferredBbDb::new(vec![], None, vec![], vec![]);
    assert!(db.in_progress_batch_opt().is_none());
    let s = db.start_batch(2);
    assert_eq!(s, 0);
    assert_eq!(db.sequence_number_of_in_progress_batch(), Some(0));
    // Transactions are kept in the order of their identifiers.
    db.insert_tx(&seq_tx(2, 20));
    db.insert_tx(&seq_tx(1, 10));
    db.insert_tx(&seq_tx(3, 30));
    let in_progress = db.in_progress_batch_opt().unwrap();
    assert_eq!(in_progress.tx_hashes, vec![[1; 32], [2; 32], [3; 32]]);
    // A proof blob taken meanwhile gets the next number.
    let p = db.insert_proof_blob(vec![7]);
    assert_eq!(p, 1);
    let batch = db.terminate_batch();
    assert_eq!(batch.inner.sequence_number, 0);
    assert_eq!(batch.inner.visible_slots_to_advance, 2);
    assert_eq!(batch.inner.data.len(), 3);
    assert_eq!(db.sequence_number_of_in_progress_batch(), None);
    // The batch is stored before the proof, and waits to be sent.
    let blobs = db.all_subsequent_blobs(0);
    assert_eq!(blobs.iter().map(|b| b.sequence_number()).collect::<Vec<_>>(), vec![0, 1]);
    assert_eq!(blobs[0].visible_slots_to_advance(), Some(2));
    assert_eq!(blobs[1].visible_slots_to_advance(), None);
    let earliest = db.earliest_batch_not_sent_yet().unwrap();
    assert_eq!(earliest.inner.sequence_number, 0);
    db.advance_not_sent_yet_cursor();
    assert!(db.earliest_batch_not_sent_yet().is_none());
}

#[test]
fn a_transaction_with_a_known_identifier_replaces_it() {
    let mut db = PreferredBbDb::new(vec![], None, vec![], vec![]);
    db.start_batch(1);
    db.insert_tx(&seq_tx(1, 10));
    db.insert_tx(&seq_tx(2, 10));
    let batch = db.in_progress_batch_opt().unwrap();
    assert_eq!(batch.tx_hashes, vec![[2; 32]]);
}

#[test]
fn subsequent_blobs_start_at_the_nodes_sequence_number() {
    let db = PreferredBbDb::new(vec![proof_blob(1), proof_blob(3), proof_blob(4)], None, vec![], vec![]);
    let blobs = db.all_subsequent_blobs(3);
    assert_eq!(blobs.iter().map(|b| b.sequence_number()).collect::<Vec<_>>(), vec![3, 4]);
    assert!(db.all_subsequent_blobs(9).is_empty());
}

#[test]
fn recalculating_prunes_finalized_blobs_and_takes_the_greater_number() {
    let mut db = PreferredBbDb::new(
        vec![proof_blob(1), proof_blob(3), proof_blob(4)],
        Some(InProgressBatchInfo { sequence_number: 5, visible_slots_to_advance: 1 }),
        vec![],
        vec![],
    );
    assert_eq!(db.next_sequence_number(), 6);
    db.recalculate_next_sequence_number(10, 4);
    assert_eq!(db.next_sequence_number(), 10);
    let blobs = db.all_subsequent_blobs(0);
    assert_eq!(blobs.iter().map(|b| b.sequence_number()).collect::<Vec<_>>(), vec![4]);
    // A smaller number from the node changes nothing; none finalized prunes nothing.
    db.recalculate_next_sequence_number(2, 0);
    assert_eq!(db.next_sequence_number(), 10);
    assert_eq!(db.all_subsequent_blobs(0).len(), 1);
}

#[test]
fn generated_sequence_numbers_increase() {
    let mut db = PreferredBbDb::new(vec![], None, vec![], vec![]);
    let a = db.generate_sequence_number(&[1, 2]).unwrap();
    let b = db.generate_sequence_number(&[3]).unwrap();
    assert!(a < b);
    assert_eq!((a, b), (0, 1));
}

#[test]
fn batches_to_process_skip_proofs_and_end_with_the_batch_in_progress() {
    let mut db = PreferredBbDb::new(vec![], None, vec![], vec![]);
    db.start_batch(1);
    db.insert_tx(&seq_tx(1, 1));
    db.terminate_batch();
    db.insert_proof_blob(vec![1]);
    db.start_batch(3);
    db.insert_tx(&seq_tx(2, 2));
    let batches = batches_to_process(&db, 0);
    assert_eq!(batches.len(), 2);
    assert!(!batches[0].is_in_progress);
    assert_eq!(batches[0].batch.inner.sequence_number, 0);
    assert!(batches[1].is_in_progress);
    assert_eq!(batches[1].batch.inner.sequence_number, 2);
    assert_eq!(batches[1].batch.inner.visible_slots_to_advance, 3);
    assert_eq!(batch_seq(&batches_to_process(&db, 1)), vec![2]);
}

fn batch_seq(b: &[sov_sequencer::preferred::bb_db::PreferredBatchToRestore]) -> Vec<u64> {
    b.iter().map(|x| x.batch.inner.sequence_number).collect()
}
