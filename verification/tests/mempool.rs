use sov_sequencer::standard::mempool::{Mempool, MempoolCursor, SeqDbTx};
use sov_sequencer::types::FullyBakedTx;

fn stored(hash_byte: u8, len: usize, uuid_v7: u128) -> SeqDbTx {
    SeqDbTx { tx: FullyBakedTx::new(vec![hash_byte; len]), hash: [hash_byte; 32], uuid_v7 }
}

fn drain_order(mempool: &Mempool) -> Vec<u8> {
    let mut cursor = MempoolCursor::new(usize::MAX);
    let mut order = Vec::new();
    while let Some(tx) = mempool.next(&mut cursor) {
        order.push(tx.hash[0]);
    }
    order
}

#[test]
fn cursor_order_is_largest_then_oldest() {
    let big_old = MempoolCursor { tx_size_in_bytes: 10, uuid_v7: 1 };
    let big_new = MempoolCursor { tx_size_in_bytes: 10, uuid_v7: 2 };
    let small = MempoolCursor { tx_size_in_bytes: 5, uuid_v7: 0 };
    assert!(big_old.precedes(&big_new));
    assert!(big_new.precedes(&small));
    assert!(!small.precedes(&big_old));
    assert!(!big_old.precedes(&big_old));
    assert_eq!(big_old.max_cursor(small), small);
}

#[test]
fn mempool_iterates_largest_first_then_oldest() {
    let (mempool, dropped) =
        Mempool::new(10, vec![stored(1, 5, 10), stored(2, 8, 20), stored(3, 5, 5), stored(4, 8, 1)]);
    assert!(dropped.is_empty());
    assert_eq!(mempool.len(), 4);
    assert_eq!(drain_order(&mempool), vec![4, 2, 3, 1]);
}

#[test]
fn cursor_skips_transactions_too_big() {
    let (mempool, _) = Mempool::new(10, vec![stored(1, 5, 10), stored(2, 8, 20)]);
    let mut cursor = MempoolCursor::new(6);
    let tx = mempool.next(&mut cursor).unwrap();
    assert_eq!(tx.hash[0], 1);
    assert!(mempool.next(&mut cursor).is_none());
}

#[test]
fn full_mempool_evicts_the_oldest() {
    let (mut mempool, _) = Mempool::new(2, vec![stored(1, 5, 10), stored(2, 5, 20)]);
    let evicted = mempool.add(stored(3, 5, 30));
    assert_eq!(evicted.len(), 1);
    assert_eq!(evicted[0].hash, [1; 32]);
    assert_eq!(evicted[0].reason, "Mempool is full");
    assert_eq!(mempool.len(), 2);
    assert!(!mempool.contains(&[1; 32]));
    assert!(mempool.contains(&[3; 32]));
}

#[test]
fn restoring_more_than_capacity_evicts_while_restoring() {
    let (mempool, dropped) =
        Mempool::new(2, vec![stored(1, 5, 10), stored(2, 5, 20), stored(3, 5, 30)]);
    assert_eq!(mempool.len(), 2);
    assert_eq!(dropped.len(), 1);
    assert_eq!(dropped[0].hash, [1; 32]);
}

#[test]
fn adding_a_known_transaction_changes_nothing() {
    let (mut mempool, _) = Mempool::new(3, vec![stored(1, 5, 10)]);
    let (tx, evicted) = mempool.add_new_tx([1; 32], FullyBakedTx::new(vec![9; 3]), 99);
    assert!(evicted.is_empty());
    assert_eq!(tx.uuid_v7, 10);
    assert_eq!(tx.tx.data, vec![1; 5]);
    assert_eq!(mempool.len(), 1);
}

#[test]
fn adding_a_new_transaction_keeps_it() {
    let (mut mempool, _) = Mempool::new(3, vec![]);
    let (tx, evicted) = mempool.add_new_tx([7; 32], FullyBakedTx::new(vec![9; 3]), 40);
    assert!(evicted.is_empty());
    assert_eq!(tx.uuid_v7, 40);
    assert_eq!(tx.hash, [7; 32]);
    assert_eq!(tx.tx.data, vec![9; 3]);
    assert!(mempool.contains(&[7; 32]));
}

#[test]
fn drop_and_remove() {
    let (mut mempool, _) = Mempool::new(5, vec![stored(1, 5, 10), stored(2, 5, 20), stored(3, 5, 30)]);
    let notice = mempool.drop(&[2; 32], "gone".to_string());
    assert_eq!(notice.hash, [2; 32]);
    assert_eq!(notice.reason, "gone");
    assert_eq!(mempool.len(), 2);
    mempool.remove_all_without_notifying(&vec![[1; 32], [9; 32]]);
    assert_eq!(mempool.len(), 1);
    assert!(mempool.contains(&[3; 32]));
    mempool.remove_without_notifying(&[3; 32]);
    assert_eq!(mempool.len(), 0);
}

#[test]
fn uuid_v7_is_monotonically_increasing() {
    let a = SeqDbTx::new([1; 32], FullyBakedTx::new(vec![1]));
    let b = SeqDbTx::new([2; 32], FullyBakedTx::new(vec![2]));
    assert!(a.uuid_v7 < b.uuid_v7);
}

#[test]
fn a_full_mempool_evicts_the_oldest_for_a_new_transaction() {
    let (mut mempool, _) = Mempool::new(2, vec![stored(1, 5, 10), stored(2, 5, 20)]);
    let drawn = SeqDbTx::new([9; 32], FullyBakedTx::new(vec![])).uuid_v7;
    let (tx, evicted) = mempool.add_new_tx([3; 32], FullyBakedTx::new(vec![3; 5]), drawn);
    assert_eq!(tx.uuid_v7, drawn);
    assert_eq!(evicted.len(), 1);
    assert_eq!(evicted[0].hash, [1; 32]);
    assert_eq!(evicted[0].reason, "Mempool is full");
    let (_, evicted) = mempool.add_new_tx([4; 32], FullyBakedTx::new(vec![4; 5]), drawn + 1);
    assert_eq!(evicted[0].hash, [2; 32]);
    assert!(mempool.contains(&[3; 32]));
    assert!(mempool.contains(&[4; 32]));
}

#[test]
fn a_colliding_identifier_is_replaced_by_a_free_one() {
    let (mut mempool, _) = Mempool::new(5, vec![stored(1, 5, 0), stored(2, 5, 1)]);
    let (tx, evicted) = mempool.add_new_tx([3; 32], FullyBakedTx::new(vec![3; 5]), 1);
    assert!(evicted.is_empty());
    assert_eq!(tx.uuid_v7, 2);
}
