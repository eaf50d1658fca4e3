use sov_sequencer::standard::batch_builder::{
    default_max_batch_size_bytes, default_mempool_max_txs_count, mempool_cursor, AddTxOutcome,
    BatchAssembly, StdBatchBuilderConfig,
};
use sov_sequencer::standard::mempool::{Mempool, MempoolCursor, SeqDbTx};
use sov_sequencer::types::FullyBakedTx;

fn stored(hash_byte: u8, len: usize, uuid_v7: u128) -> SeqDbTx {
    SeqDbTx { tx: FullyBakedTx::new(vec![hash_byte; len]), hash: [hash_byte; 32], uuid_v7 }
}

/// Runs an assembly where every candidate gets the outcome `outcome_of`
/// gives for its first byte.
fn assemble(
    mempool: &mut Mempool,
    max: usize,
    outcome_of: impl Fn(u8) -> AddTxOutcome,
) -> (Option<Vec<u8>>, Vec<String>) {
    let mut assembly = BatchAssembly::new(max);
    let mut notices = Vec::new();
    while let Some(tx) = assembly.next_candidate(mempool) {
        let outcome = outcome_of(tx.hash[0]);
        if let Some(n) = assembly.record_outcome(mempool, tx, outcome) {
            notices.push(n.reason);
        }
    }
    let batch = assembly.finish().map(|b| b.tx_hashes.iter().map(|h| h[0]).collect());
    (batch, notices)
}

#[test]
fn config_defaults() {
    assert_eq!(default_mempool_max_txs_count(), 100);
    assert_eq!(default_max_batch_size_bytes(), 1024 * 1024);
    let config = StdBatchBuilderConfig::default();
    assert_eq!(config.mempool_max_txs_count(), 100);
    assert_eq!(config.max_batch_size_bytes(), 1_048_576);
    let config = StdBatchBuilderConfig { mempool_max_txs_count: Some(3), max_batch_size_bytes: Some(7) };
    assert_eq!(config.mempool_max_txs_count(), 3);
    assert_eq!(config.max_batch_size_bytes(), 7);
}

#[test]
fn mempool_cursor_saturates() {
    assert_eq!(mempool_cursor(10, 4), MempoolCursor::new(6));
    assert_eq!(mempool_cursor(4, 10), MempoolCursor::new(0));
}

#[test]
fn fills_the_batch_largest_first() {
    let (mut mempool, _) = Mempool::new(
        10,
        vec![stored(1, 4, 1), stored(2, 6, 2), stored(3, 3, 3), stored(4, 2, 4)],
    );
    let (batch, notices) = assemble(&mut mempool, 10, |_| AddTxOutcome::Included);
    // 6 then 4 fill the 10 bytes exactly.
    assert_eq!(batch, Some(vec![2, 1]));
    assert!(notices.is_empty());
    // Included transactions stay in the mempool until the batch is published.
    assert_eq!(mempool.len(), 4);
}

#[test]
fn invalid_transactions_are_dropped_and_skipped() {
    let (mut mempool, _) = Mempool::new(10, vec![stored(1, 4, 1), stored(2, 6, 2), stored(3, 3, 3)]);
    let (batch, notices) = assemble(&mut mempool, 10, |b| match b {
        2 => AddTxOutcome::FatallyInvalid,
        3 => AddTxOutcome::PermissionDenied { module: "sequencer_registry".to_string() },
        _ => AddTxOutcome::Included,
    });
    assert_eq!(batch, Some(vec![1]));
    assert_eq!(
        notices,
        vec![
            "Transaction is invalid".to_string(),
            "The transaction was rejected because the it invokes the `sequencer_registry` module which may modify sequencer configurations. You need admin permissions on the sequencer to call this method.".to_string(),
        ]
    );
    assert_eq!(mempool.len(), 1);
}

#[test]
fn reverted_transactions_are_skipped_but_kept() {
    let (mut mempool, _) = Mempool::new(10, vec![stored(1, 4, 1), stored(2, 6, 2)]);
    let (batch, notices) = assemble(&mut mempool, 10, |_| AddTxOutcome::Reverted);
    assert_eq!(batch, None);
    assert!(notices.is_empty());
    assert_eq!(mempool.len(), 2);
}

#[test]
fn empty_mempool_gives_no_batch() {
    let (mut mempool, _) = Mempool::new(10, vec![]);
    let (batch, _) = assemble(&mut mempool, 10, |_| AddTxOutcome::Included);
    assert_eq!(batch, None);
}

#[test]
fn batch_is_made_of_distinct_mempool_transactions_in_order() {
    let (mut mempool, _) = Mempool::new(
        10,
        vec![stored(1, 4, 1), stored(2, 4, 2), stored(3, 2, 3), stored(4, 6, 4)],
    );
    let (batch, notices) = assemble(&mut mempool, 100, |b| match b {
        4 => AddTxOutcome::FatallyInvalid,
        _ => AddTxOutcome::Included,
    });
    assert_eq!(batch, Some(vec![1, 2, 3]));
    assert_eq!(notices, vec!["Transaction is invalid".to_string()]);
    for b in [1u8, 2, 3] {
        assert!(mempool.contains(&[b; 32]));
    }
    assert!(!mempool.contains(&[4; 32]));
}
