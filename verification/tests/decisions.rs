use sov_sequencer::preferred::async_batch::{post_tx_decision, pre_flight_rejection, PostTxDecision};
use sov_sequencer::errors::RejectReason;
use sov_sequencer::preferred::decisions::{
    accept_tx_refusal, batch_builder_visible_increase, close_to_gas_limit, needs_state_root, next_visible_root_height,
    batch_creation_refusal, catchup_batches_to_send, check_readiness, choose_state_update_path,
    div_ceil, exceeds_batch_execution_time_limit, is_batch_production_convenient,
    next_visible_slot_number_increase_inner, recovery_action, replica_visible_slots_to_advance,
    try_to_start_batch_if_none_in_progress, AcceptTxRefusal, BatchCreationError, BatchStart,
    RecoveryAction, RecoveryStrategy, ReplicaBatchError, StateUpdatePath,
};
use sov_sequencer::types::SequencerNotReadyDetails;

/// The rollup's limit on how far one batch advances the visible slot
/// number, as configured for these cases.
const MAX_VISIBLE_HEIGHT_INCREASE_PER_SLOT: u8 = 10;

#[test]
fn test_next_visible_slot_number_increase() {
    struct TestCase<'a> {
        current_visible: u64,
        latest_finalized: u64,
        leave_space: bool,
        ideal_lag: u64,
        expected: Option<u8>,
        description: &'a str,
    }

    fn run_test(case: &TestCase) {
        let result = next_visible_slot_number_increase_inner(
            case.current_visible,
            case.latest_finalized,
            case.leave_space,
            case.ideal_lag,
            MAX_VISIBLE_HEIGHT_INCREASE_PER_SLOT,
        );

        assert_eq!(
            result.ok(),
            case.expected,
            "Test failed: {}. Input: current_visible={}, latest_finalized={}, leave_space={}, ideal_lag={}",
            case.description,
            case.current_visible,
            case.latest_finalized,
            case.leave_space,
            case.ideal_lag,
        );
    }

    let max_slots_to_advance = MAX_VISIBLE_HEIGHT_INCREASE_PER_SLOT;

    let test_cases = &[
        TestCase {
            description: "Lag < ideal, not reserving extra space",
            current_visible: 1,
            latest_finalized: 10,
            leave_space: false,
            ideal_lag: 10,
            expected: Some(1),
        },
        TestCase {
            description: "Lag < ideal, reserving extra space",
            current_visible: 1,
            latest_finalized: 10,
            leave_space: true,
            ideal_lag: 10,
            expected: Some(1),
        },
        TestCase {
            description: "No lag, reserving extra space, should fail",
            current_visible: 1,
            latest_finalized: 1,
            leave_space: true,
            ideal_lag: 10,
            expected: None,
        },
        TestCase {
            description: "Lag of 1, reserving extra space, should fail",
            current_visible: 1,
            latest_finalized: 2,
            leave_space: true,
            ideal_lag: 10,
            expected: None,
        },
        TestCase {
            description: "Lag of 2, reserving extra space, should advance by 1",
            current_visible: 1,
            latest_finalized: 3,
            leave_space: true,
            ideal_lag: 10,
            expected: Some(1),
        },
        TestCase {
            description: "No lag, not reserving extra space, should fail",
            current_visible: 1,
            latest_finalized: 1,
            leave_space: false,
            ideal_lag: 10,
            expected: None,
        },
        TestCase {
            description: "Lag of 1, not reserving extra space, should advance by 1",
            current_visible: 1,
            latest_finalized: 2,
            leave_space: false,
            ideal_lag: 10,
            expected: Some(1),
        },
        TestCase {
            description: "Lag == ideal, reserving extra space, should advance by 1",
            current_visible: 1,
            latest_finalized: 13,
            leave_space: true,
            ideal_lag: 12,
            expected: Some(1),
        },
        TestCase {
            description: "Lag > ideal, not reserving extra space",
            current_visible: 1,
            latest_finalized: 13,
            leave_space: false,
            ideal_lag: 10,
            expected: Some(2),
        },
        TestCase {
            description: "Lag > ideal, reserving extra space",
            current_visible: 1,
            latest_finalized: 17,
            leave_space: true,
            ideal_lag: 10,
            expected: Some(5),
        },
        TestCase {
            description: "Lag > ideal, not reserving extra space",
            current_visible: 1,
            latest_finalized: 17,
            leave_space: false,
            ideal_lag: 10,
            expected: Some(6),
        },
        TestCase {
            description: "Large lag, reserving extra space, should be capped",
            current_visible: 10,
            latest_finalized: 1_000_000,
            leave_space: true,
            ideal_lag: 10,
            expected: Some(max_slots_to_advance),
        },
        TestCase {
            description: "Large lag, not reserving extra space, should be capped",
            current_visible: 10,
            latest_finalized: 1_000_000,
            leave_space: false,
            ideal_lag: 10,
            expected: Some(max_slots_to_advance),
        },
    ];

    for case in test_cases {
        run_test(case);
    }
}

#[test]
fn waiting_on_da_names_the_next_slot() {
    assert_eq!(
        next_visible_slot_number_increase_inner(5, 5, false, 10, 10),
        Err(SequencerNotReadyDetails::WaitingOnDa {
            finalized_slot_number: 5,
            needed_finalized_slot_number: 6,
        })
    );
}

#[test]
fn increase_is_capped_at_255_before_the_rollup_limit() {
    assert_eq!(next_visible_slot_number_increase_inner(0, 10_000, false, 0, 255), Ok(255));
}

#[test]
fn div_ceil_rounds_up() {
    assert_eq!(div_ceil(0, 3), 0);
    assert_eq!(div_ceil(9, 3), 3);
    assert_eq!(div_ceil(10, 3), 4);
    assert_eq!(div_ceil(u64::MAX, 1), u64::MAX);
}

#[test]
fn catchup_counts_batches_for_both_bounds() {
    // 100 slots behind; bring the lag under 20 at most, 10 at least,
    // 5 slots per batch.
    assert_eq!(catchup_batches_to_send(110, 10, 20, 10, 5), (16, 18));
    // Not behind at all.
    assert_eq!(catchup_batches_to_send(10, 20, 20, 10, 5), (0, 0));
}

#[test]
fn readiness_checks_in_order() {
    let ready: Result<(), SequencerNotReadyDetails> = Ok(());
    assert_eq!(
        check_readiness(0, 0, 1, 1, None, 0, &ready),
        Err(SequencerNotReadyDetails::WaitingOnDa {
            finalized_slot_number: 0,
            needed_finalized_slot_number: 1,
        })
    );
    assert_eq!(
        check_readiness(3, 5, 4, 4, None, 0, &ready),
        Err(SequencerNotReadyDetails::WaitingOnBlobSender {
            max_concurrent_blobs: 4,
            nb_of_blobs_in_flight: 5,
        })
    );
    assert_eq!(
        check_readiness(3, 4, 4, 4, Some(7), 8, &ready),
        Err(SequencerNotReadyDetails::PreferredSequencerAtStopHeight {
            current_height: 8,
            height_to_stop_at: 7,
        })
    );
    assert_eq!(check_readiness(3, 4, 4, 4, Some(7), 7, &ready), Ok(()));
    let syncing: Result<(), SequencerNotReadyDetails> = Err(SequencerNotReadyDetails::Startup);
    assert_eq!(check_readiness(3, 0, 4, 4, None, 7, &syncing), Err(SequencerNotReadyDetails::Startup));
}

#[test]
fn starting_a_batch() {
    assert!(matches!(
        try_to_start_batch_if_none_in_progress(true, 100, 1, 0, 0, false, 10, 10),
        Ok(BatchStart::AlreadyInProgress)
    ));
    assert!(matches!(
        try_to_start_batch_if_none_in_progress(false, 2, 1, 0, 100, false, 10, 10),
        Err(BatchCreationError::BlobSenderBusy)
    ));
    assert!(matches!(
        try_to_start_batch_if_none_in_progress(false, 0, 1, 5, 5, false, 10, 10),
        Err(BatchCreationError::NoFinalizedSlotAvailable)
    ));
    assert_eq!(
        try_to_start_batch_if_none_in_progress(false, 0, 1, 1, 17, false, 10, 10).unwrap(),
        BatchStart::Start { visible_increase: 6, visible_slot_number_after_increase: 7 }
    );
}

#[test]
fn refusals_for_batch_creation_errors() {
    assert!(matches!(
        batch_creation_refusal(BatchCreationError::NoFinalizedSlotAvailable, 3, 4),
        AcceptTxRefusal::Overloaded
    ));
    assert!(matches!(
        batch_creation_refusal(BatchCreationError::BlobSenderBusy, 3, 4),
        AcceptTxRefusal::NotReady(SequencerNotReadyDetails::WaitingOnBlobSender {
            max_concurrent_blobs: 3,
            nb_of_blobs_in_flight: 4
        })
    ));
    match batch_creation_refusal(BatchCreationError::DatabaseError("disk".to_string()), 3, 4) {
        AcceptTxRefusal::Database(m) => assert_eq!(m, "disk"),
        other => panic!("unexpected {other:?}"),
    }
}

#[test]
fn batch_production_is_convenient_with_more_than_one_slot_to_advance() {
    assert!(is_batch_production_convenient(true, 1, 17, 10, 10));
    assert!(!is_batch_production_convenient(true, 1, 10, 10, 10));
    assert!(!is_batch_production_convenient(false, 1, 17, 10, 10));
}

#[test]
fn execution_time_limit_is_in_milliseconds() {
    assert!(!exceeds_batch_execution_time_limit(6, 6000));
    assert!(exceeds_batch_execution_time_limit(6, 6001));
}

#[test]
fn state_update_paths() {
    assert_eq!(choose_state_update_path(true, false, false, true), StateUpdatePath::InconsistentDatabase);
    assert_eq!(choose_state_update_path(true, true, false, false), StateUpdatePath::ResyncToTip);
    assert_eq!(choose_state_update_path(false, true, true, true), StateUpdatePath::ResyncWithSlack);
    assert_eq!(choose_state_update_path(false, true, false, true), StateUpdatePath::Recover);
    assert_eq!(choose_state_update_path(false, false, false, true), StateUpdatePath::Replay);
}

#[test]
fn recovery_actions() {
    assert_eq!(recovery_action(false, RecoveryStrategy::DoNotRecover), RecoveryAction::FastForward);
    assert_eq!(recovery_action(true, RecoveryStrategy::TryToSave), RecoveryAction::FlushPendingBatches);
    assert_eq!(recovery_action(true, RecoveryStrategy::DoNotRecover), RecoveryAction::Shutdown);
}

#[test]
fn replica_checks_the_masters_advance() {
    assert_eq!(replica_visible_slots_to_advance(12, 10, 2), Ok(2));
    assert_eq!(
        replica_visible_slots_to_advance(13, 10, 2),
        Err(ReplicaBatchError::AdvanceMismatch { master: 2, replica: 3 })
    );
    assert_eq!(
        replica_visible_slots_to_advance(10, 10, 2),
        Err(ReplicaBatchError::InvalidVisibleSlotProgression)
    );
}

#[test]
fn nearly_full_batches() {
    // 19/20 of 100 is 95 in each dimension.
    assert!(close_to_gas_limit(&vec![95, 10], &vec![100, 200]));
    assert!(!close_to_gas_limit(&vec![96, 10], &vec![100, 200]));
    assert!(!close_to_gas_limit(&vec![95, 191], &vec![100, 200]));
    // The division comes first: 39 / 20 * 19 is 19.
    assert!(close_to_gas_limit(&vec![19], &vec![39]));
    assert!(!close_to_gas_limit(&vec![20], &vec![39]));
}

#[test]
fn visible_state_roots() {
    assert_eq!(next_visible_root_height(10, 3), 8);
    assert_eq!(next_visible_root_height(1, 5), 0);
    assert_eq!(next_visible_root_height(u64::MAX, 0), u64::MAX);
    assert!(needs_state_root(8, Some(7)));
    assert!(!needs_state_root(8, Some(8)));
    assert!(!needs_state_root(0, None));
    assert!(needs_state_root(1, None));
}

#[test]
fn fate_of_transactions() {
    assert_eq!(post_tx_decision(false, true, 10, 0, 0), PostTxDecision::Reject(RejectReason::SequencerOutOfGas));
    assert_eq!(post_tx_decision(true, false, 10, 0, 0), PostTxDecision::RevertFailed);
    assert_eq!(
        post_tx_decision(true, true, 10, 4, 7),
        PostTxDecision::Reject(RejectReason::InsufficientReward { expected: 7, found: 6 })
    );
    assert_eq!(
        post_tx_decision(true, true, 3, 4, 0),
        PostTxDecision::Reject(RejectReason::InsufficientReward { expected: 0, found: 0 })
    );
    assert_eq!(post_tx_decision(true, true, 10, 4, 6), PostTxDecision::Commit);
    assert_eq!(pre_flight_rejection(true), None);
    assert_eq!(pre_flight_rejection(false), Some(RejectReason::SenderMustBeAdmin));
}

#[test]
fn batch_builder_visible_increases() {
    assert_eq!(batch_builder_visible_increase(5, 5, false), None);
    assert_eq!(batch_builder_visible_increase(5, 6, true), None);
    assert_eq!(batch_builder_visible_increase(5, 7, true), Some(1));
    assert_eq!(batch_builder_visible_increase(5, 4, false), None);
    assert_eq!(batch_builder_visible_increase(0, 1000, false), Some(255));
}

fn started() -> Result<BatchStart, BatchCreationError> {
    Ok(BatchStart::AlreadyInProgress)
}

#[test]
fn accept_tx_refusals_come_in_order() {
    // Everything passes.
    assert!(accept_tx_refusal(false, None, true, false, Ok(()), started(), 3, 0, false, true).is_none());
    // Shutting down wins over everything else.
    assert!(matches!(
        accept_tx_refusal(true, Some("h".to_string()), false, true, Ok(()), started(), 3, 0, false, false),
        Some(AcceptTxRefusal::ShuttingDown)
    ));
    match accept_tx_refusal(false, Some("bad hash".to_string()), false, true, Ok(()), started(), 3, 0, false, true) {
        Some(AcceptTxRefusal::InvalidTx(m)) => assert_eq!(m, "bad hash"),
        other => panic!("unexpected {other:?}"),
    }
    assert!(matches!(
        accept_tx_refusal(false, None, false, true, Ok(()), started(), 3, 0, false, true),
        Some(AcceptTxRefusal::Undecodable)
    ));
    assert!(matches!(
        accept_tx_refusal(false, None, true, true, Err(SequencerNotReadyDetails::Startup), started(), 3, 0, false, true),
        Some(AcceptTxRefusal::Overloaded)
    ));
    assert!(matches!(
        accept_tx_refusal(
            false, None, true, false, Err(SequencerNotReadyDetails::Startup),
            Err(BatchCreationError::BlobSenderBusy), 3, 0, false, true
        ),
        Some(AcceptTxRefusal::NotReady(SequencerNotReadyDetails::Startup))
    ));
    assert!(matches!(
        accept_tx_refusal(false, None, true, false, Ok(()), Err(BatchCreationError::BlobSenderBusy), 3, 5, true, false),
        Some(AcceptTxRefusal::NotReady(SequencerNotReadyDetails::WaitingOnBlobSender {
            max_concurrent_blobs: 3,
            nb_of_blobs_in_flight: 5
        }))
    ));
    assert!(matches!(
        accept_tx_refusal(false, None, true, false, Ok(()), started(), 3, 0, true, false),
        Some(AcceptTxRefusal::ShuttingDown)
    ));
    assert!(matches!(
        accept_tx_refusal(false, None, true, false, Ok(()), started(), 3, 0, false, false),
        Some(AcceptTxRefusal::DoesNotFit)
    ));
}
