use sov_sequencer::preferred::node_delta_watcher::NodeDeltaWatcher;
use sov_sequencer::types::SequencerNotReadyDetails;

#[test]
fn test_check_node_delta() {
    let mut tracker = NodeDeltaWatcher {
        sequencer_slot_number: 10,
        node_slot_number: 5,
        max_delta: 5,
    };
    // delta equal to max delta
    assert!(tracker.check_delta().is_err());
    tracker.node_slot_number = 4;
    // delta greater than max delta
    assert!(tracker.check_delta().is_err());
    // no delta
    tracker.node_slot_number = 10;
    assert!(tracker.check_delta().is_ok());
    // node ahead
    tracker.node_slot_number = 11;
    assert!(tracker.check_delta().is_ok());
}

#[test]
fn test_check_node_delta_returned_fields() {
    let tracker = NodeDeltaWatcher {
        sequencer_slot_number: 10,
        node_slot_number: 2,
        max_delta: 5,
    };
    if let Err(SequencerNotReadyDetails::WaitingOnNode {
        current_node_slot_number,
        current_sequencer_slot_number,
        current_delta,
        max_allowed_delta,
    }) = tracker.check_delta()
    {
        assert_eq!(current_node_slot_number, 2);
        assert_eq!(current_sequencer_slot_number, 10);
        assert_eq!(current_delta, 8);
        assert_eq!(max_allowed_delta, 5);
    } else {
        panic!("expected WaitingOnNode error");
    }
}

#[test]
fn new_watcher_starts_at_genesis() {
    let watcher = NodeDeltaWatcher::new(3);
    assert_eq!(watcher.sequencer_slot_number, 0);
    assert_eq!(watcher.node_slot_number, 0);
    assert_eq!(watcher.max_delta, 3);
    // Both at genesis: a delta of zero is below any positive limit.
    assert!(watcher.check_delta().is_ok());
}

#[test]
fn zero_max_delta_refuses_even_equal_slots() {
    let watcher = NodeDeltaWatcher { sequencer_slot_number: 7, node_slot_number: 7, max_delta: 0 };
    assert_eq!(
        watcher.check_delta(),
        Err(SequencerNotReadyDetails::WaitingOnNode {
            current_node_slot_number: 7,
            current_sequencer_slot_number: 7,
            current_delta: 0,
            max_allowed_delta: 0,
        })
    );
}
