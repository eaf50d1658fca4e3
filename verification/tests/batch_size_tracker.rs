use std::num::NonZeroU8;

use sov_sequencer::preferred::batch_size_tracker::BatchSizeTracker;

/// The serialized size of a preferred batch holding transactions of the
/// given sizes: sequence number, slots to advance, then the transactions.
fn serialized_batch_size(tx_sizes: &[usize]) -> usize {
    let data: Vec<Vec<u8>> = tx_sizes.iter().map(|s| vec![0u8; *s]).collect();
    let batch = (1u64, NonZeroU8::new(1).unwrap(), data);
    borsh::to_vec(&batch).unwrap().len()
}

fn batch_size_calculation_inner(tx_sizes: Vec<usize>) {
    let batch_size = serialized_batch_size(&tx_sizes);

    let mut tracker = BatchSizeTracker::new(batch_size);

    // The tracker can fit all the transactions...
    for tx_size in tx_sizes {
        assert!(tracker.can_fit_tx(tx_size as _));
        tracker.add_tx(tx_size);
    }

    assert_eq!(tracker.current_batch_size, batch_size);

    // ...and not any others.
    assert!(!tracker.can_fit_tx(1));
}

#[test]
fn batch_size_calculation() {
    batch_size_calculation_inner(vec![]);
    batch_size_calculation_inner(vec![8]);
    batch_size_calculation_inner(vec![1, 2, 3, 4, 5, 6, 7, 8, 9, 10]);
    batch_size_calculation_inner(vec![0]);
}

#[test]
fn empty_batch_has_fixed_overhead() {
    let tracker = BatchSizeTracker::new(100);
    assert_eq!(tracker.current_batch_size, 13);
    assert_eq!(tracker.max_batch_size, 100);
}

#[test]
fn serialized_tx_size_adds_length_prefix() {
    assert_eq!(BatchSizeTracker::serialized_tx_size(0), 4);
    assert_eq!(BatchSizeTracker::serialized_tx_size(100), 104);
}

#[test]
fn can_fit_tx_is_inclusive_of_the_limit() {
    // 13 bytes of overhead, 4 bytes of prefix: 83 bytes fit exactly in 100.
    let tracker = BatchSizeTracker::new(100);
    assert!(tracker.can_fit_tx(83));
    assert!(!tracker.can_fit_tx(84));
}

#[test]
fn add_tx_counts_prefix_and_bytes() {
    let mut tracker = BatchSizeTracker::new(1000);
    tracker.add_tx(10);
    tracker.add_tx(20);
    assert_eq!(tracker.current_batch_size, 13 + 14 + 24);
}
