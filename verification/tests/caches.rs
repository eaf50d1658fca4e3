use std::time::Duration;

use sov_sequencer::metrics::{
    in_progress_batch_size_fields, sequence_number_fields, PreferredSequencerUpdateStateMetrics,
};
use sov_sequencer::preferred::events_cache::{prune_events_cache, EventCache};
use sov_sequencer::preferred::state_root_cache::{
    keep_write_set, measure_write_set, StateRootCache, StateRootCacheEntry,
    MAX_STATE_ROOTS_TO_CACHE, MEMORY_LIMIT_FOR_STATE_ROOT_COMPUTATION,
};

#[test]
fn test_prune_events_cache() {
    let mut cached_events = EventCache::new();
    cached_events.push(1, (), 1);
    cached_events.push(2, (), 2);
    cached_events.push(3, (), 3);
    cached_events.push(4, (), 4);
    cached_events.push(5, (), 5);
    prune_events_cache(3, &mut cached_events);

    assert_eq!(cached_events.len(), 2);
    assert_eq!(cached_events.get(4), Some(&(4, (), 4)));
    assert_eq!(cached_events.get(5), Some(&(5, (), 5)));
    assert_eq!(cached_events.get(3), None);
}

fn entry(size: usize) -> StateRootCacheEntry<u64, Vec<u8>> {
    StateRootCacheEntry { root: size as u64, writes: Some(vec![0; 1]), size }
}

#[test]
fn write_sets_are_measured_and_kept_when_small() {
    let writes = vec![(vec![1, 2, 3], Some(vec![4, 5])), (vec![6], None)];
    assert_eq!(measure_write_set(&writes), 6);
    assert!(keep_write_set(true, MEMORY_LIMIT_FOR_STATE_ROOT_COMPUTATION / 5));
    assert!(!keep_write_set(true, MEMORY_LIMIT_FOR_STATE_ROOT_COMPUTATION / 5 + 1));
    assert!(!keep_write_set(false, 1));
}

#[test]
fn state_roots_are_found_by_height() {
    let mut cache = StateRootCache::new();
    cache.insert(5, entry(10));
    cache.insert(2, entry(20));
    assert_eq!(cache.get(5).unwrap().root, 10);
    assert_eq!(cache.get(2).unwrap().root, 20);
    assert!(cache.get(3).is_none());
    assert_eq!(cache.cached_results_size(), 30);
}

#[test]
fn pruning_drops_the_oldest_write_sets_first() {
    let mut cache = StateRootCache::new();
    let big = MEMORY_LIMIT_FOR_STATE_ROOT_COMPUTATION / 5;
    for h in 0..6u64 {
        cache.insert(h, entry(big));
        cache.prune_cache();
    }
    // Six fifths of the limit: the oldest write set goes.
    assert_eq!(cache.cached_results_size(), 5 * big);
    assert!(cache.get(0).unwrap().writes.is_none());
    assert_eq!(cache.get(0).unwrap().size, 0);
    assert!(cache.get(1).unwrap().writes.is_some());
}

#[test]
fn pruning_keeps_a_bounded_number_of_roots() {
    let mut cache = StateRootCache::new();
    for h in 0..(MAX_STATE_ROOTS_TO_CACHE as u64 + 5) {
        cache.insert(h, entry(0));
        cache.prune_cache();
    }
    assert_eq!(cache.len(), MAX_STATE_ROOTS_TO_CACHE);
    assert!(cache.get(4).is_none());
    assert!(cache.get(5).is_some());
}

#[test]
fn telegraf_lines() {
    let m = PreferredSequencerUpdateStateMetrics {
        duration: Duration::from_millis(1500),
        lock_duration: Duration::from_millis(20),
        batches_count: 3,
        transactions_count: 42,
        in_progress_batch: true,
    };
    assert_eq!(m.measurement_name(), "sov_rollup_preferred_sequencer_update_state");
    assert_eq!(
        m.telegraf_line(m.duration.as_millis(), m.lock_duration.as_millis()),
        "sov_rollup_preferred_sequencer_update_state duration_ms=1500,lock_duration_ms=20,batches_count=3,transactions_count=42,in_progress_batch=true"
    );
    assert_eq!(sequence_number_fields(7), "current_sequence_number=7");
    assert_eq!(in_progress_batch_size_fields(0), "num_txs=0");
}
