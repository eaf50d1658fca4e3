use sov_sequencer::fair::batch_builder::{
    accept_tx_error, check_tx_size, AcceptTxFailure, FairBatchBuilderConfig, FairBlobAssembly,
    FairTxOutcome,
};
use sov_sequencer::fair::mempool::{FairMempool, MempoolCursor, MempoolTx};

fn tx(hash_byte: u8, len: usize, id: u64) -> MempoolTx {
    MempoolTx::new([hash_byte; 32], vec![hash_byte; len], id)
}

/// Runs a blob assembly, giving each candidate the outcome `outcome_of`
/// gives for its first byte.
fn assemble(
    mempool: &mut FairMempool,
    max: usize,
    outcome_of: impl Fn(u8) -> FairTxOutcome,
) -> Result<Vec<u8>, String> {
    let count_before = mempool.len();
    let mut assembly = FairBlobAssembly::new(max, count_before);
    while let Some(candidate) = assembly.next_candidate(mempool) {
        let outcome = outcome_of(candidate.hash[0]);
        assembly.record_outcome(candidate, outcome)?;
    }
    assembly.finish(mempool).map(|txs| txs.iter().map(|t| t.hash[0]).collect())
}

#[test]
fn fair_cursor_order_is_largest_then_oldest() {
    let a = MempoolCursor { tx_size_in_bytes: 10, incremental_id: 1 };
    let b = MempoolCursor { tx_size_in_bytes: 10, incremental_id: 2 };
    let c = MempoolCursor::new(9);
    assert!(a.precedes(&b));
    assert!(b.precedes(&c));
    assert!(!c.precedes(&a));
    assert_eq!(c.incremental_id, 0);
}

#[test]
fn new_mempool_continues_after_the_greatest_id() {
    let (mut mempool, evicted) = FairMempool::new(10, vec![tx(1, 3, 4), tx(2, 3, 9)]);
    assert!(evicted.is_empty());
    assert_eq!(mempool.len(), 2);
    let (added, _) = mempool.add_new_tx([3; 32], vec![3; 3]);
    assert_eq!(added.incremental_id, 10);
}

#[test]
fn empty_mempool_starts_at_one() {
    let (mut mempool, _) = FairMempool::new(10, vec![]);
    let (added, _) = mempool.add_new_tx([3; 32], vec![3; 3]);
    assert_eq!(added.incremental_id, 1);
    let (again, _) = mempool.add_new_tx([4; 32], vec![4; 3]);
    assert_eq!(again.incremental_id, 2);
}

#[test]
fn duplicate_txs_are_ignored() {
    let (mut mempool, _) = FairMempool::new(10, vec![]);
    mempool.add_new_tx([3; 32], vec![3; 3]);
    let (again, evicted) = mempool.add_new_tx([3; 32], vec![9; 9]);
    assert!(evicted.is_empty());
    assert_eq!(again.tx_bytes, vec![3; 3]);
    assert_eq!(again.incremental_id, 1);
    assert_eq!(mempool.len(), 1);
}

#[test]
fn new_tx_on_full_mempool_evicts_the_oldest() {
    let (mut mempool, _) = FairMempool::new(2, vec![]);
    mempool.add_new_tx([1; 32], vec![1; 3]);
    mempool.add_new_tx([2; 32], vec![2; 3]);
    let (_, evicted) = mempool.add_new_tx([3; 32], vec![3; 3]);
    assert_eq!(evicted, vec![[1; 32]]);
    assert_eq!(mempool.len(), 2);
    assert!(!mempool.contains(&[1; 32]));
    assert!(mempool.contains(&[3; 32]));
}

#[test]
fn zero_capacity_keeps_nothing() {
    let (mut mempool, _) = FairMempool::new(0, vec![]);
    let (_, evicted) = mempool.add_new_tx([1; 32], vec![1; 3]);
    assert_eq!(evicted, vec![[1; 32]]);
    assert_eq!(mempool.len(), 0);
    assert_eq!(mempool.mempool_max_txs_count(), 0);
}

#[test]
fn restoring_evicts_the_oldest_beyond_capacity() {
    let (mempool, evicted) = FairMempool::new(1, vec![tx(1, 3, 7), tx(2, 3, 3)]);
    // The second one is older: it goes as soon as it arrives.
    assert_eq!(evicted, vec![[2; 32]]);
    assert_eq!(mempool.len(), 1);
    assert!(mempool.contains(&[1; 32]));
}

#[test]
fn blob_is_filled_largest_first_and_removed_from_the_mempool() {
    let (mut mempool, _) = FairMempool::new(10, vec![tx(1, 4, 1), tx(2, 6, 2), tx(3, 3, 3)]);
    let blob = assemble(&mut mempool, 10, |_| FairTxOutcome::Successful).unwrap();
    assert_eq!(blob, vec![2, 1]);
    assert_eq!(mempool.len(), 1);
    assert!(mempool.contains(&[3; 32]));
}

#[test]
fn builds_batch_skipping_invalid_txs() {
    let (mut mempool, _) =
        FairMempool::new(10, vec![tx(1, 3, 1), tx(2, 3, 2), tx(3, 3, 3), tx(4, 3, 4)]);
    let blob = assemble(&mut mempool, 100, |b| match b {
        2 => FairTxOutcome::Failed,
        3 => FairTxOutcome::NonceError,
        _ => FairTxOutcome::Successful,
    })
    .unwrap();
    assert_eq!(blob, vec![1, 4]);
    // Skipped transactions stay for a later blob.
    assert_eq!(mempool.len(), 2);
}

#[test]
fn error_on_empty_mempool() {
    let (mut mempool, _) = FairMempool::new(10, vec![]);
    let err = assemble(&mut mempool, 10, |_| FairTxOutcome::Successful).unwrap_err();
    assert_eq!(err, "No valid transactions are available out of 0 were in the pool");
}

#[test]
fn fatal_outcome_stops_the_assembly() {
    let (mut mempool, _) = FairMempool::new(10, vec![tx(1, 3, 1)]);
    let err = assemble(&mut mempool, 10, |_| FairTxOutcome::Fatal("boom".to_string())).unwrap_err();
    assert_eq!(
        err,
        "An non-recoverable error occurred when trying to add the tx to the batch: boom"
    );
}

#[test]
fn reject_tx_too_big() {
    let err = check_tx_size(10, 11).unwrap_err();
    assert_eq!(err.http_status, 400);
    assert_eq!(err.title, "Transaction is too big");
    assert_eq!(err.details, "Max allowed size: 10, submitted size: 11");
    assert!(check_tx_size(10, 10).is_ok());
}

#[test]
fn accept_tx_errors() {
    let e = accept_tx_error(AcceptTxFailure::Encoding("e".to_string()));
    assert_eq!((e.http_status, e.title.as_str(), e.details.as_str()), (400, "Failed to encode transaction", "e"));
    let e = accept_tx_error(AcceptTxFailure::SequencerAuthorization("s".to_string()));
    assert_eq!((e.http_status, e.title.as_str()), (503, "Sequencer authorization error"));
    let e = accept_tx_error(AcceptTxFailure::Authentication("a".to_string()));
    assert_eq!((e.http_status, e.title.as_str()), (400, "The transaction is invalid"));
    let e = accept_tx_error(AcceptTxFailure::Storage("d".to_string()));
    assert_eq!((e.http_status, e.title.as_str()), (500, "Failed to submit transaction"));
}

#[test]
fn fair_config_defaults() {
    let config = FairBatchBuilderConfig { mempool_max_txs_count: None, max_batch_size_bytes: None, sequencer_address: 0u8 };
    assert_eq!(config.mempool_max_txs_count_or_default(), 100);
    assert_eq!(config.max_batch_size_bytes_or_default(), 1024 * 1024);
    let config = FairBatchBuilderConfig { mempool_max_txs_count: Some(2), max_batch_size_bytes: Some(5), sequencer_address: 0u8 };
    assert_eq!(config.mempool_max_txs_count_or_default(), 2);
    assert_eq!(config.max_batch_size_bytes_or_default(), 5);
}
