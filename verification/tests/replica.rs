use sov_sequencer::preferred::db::DbEvent;
use sov_sequencer::preferred::notifications::{
    float_text_ok, EventType, EventsNotificationPayload, LeaderNotificationPayload,
    PayloadParseError,
};
use sov_sequencer::preferred::replica::{
    aborts_transition, backfill_pages, can_complete_transition_to_master,
    check_event_notification_allowed, create_event_future, create_event_futures_from_notification,
    detect_gap, handle_leader_change_notification, heartbeat_outcome, should_attempt_takeover,
    Backfill, EventFetch, HeartbeatOutcome, LeaderChangeAction, ReplicaState,
};
use sov_sequencer::types::SequencerNotReadyDetails;

const NODE: &str = "67e55044-10b1-426f-9247-bb680e5fe0c8";
const NODE_ID: u128 = 0x67e5504410b1426f9247bb680e5fe0c8;

#[test]
fn detects_gaps() {
    assert_eq!(detect_gap(None, 1), None);
    assert_eq!(detect_gap(None, 0), None);
    assert_eq!(detect_gap(None, 5), Some(1));
    assert_eq!(detect_gap(Some(4), 5), None);
    assert_eq!(detect_gap(Some(4), 4), None);
    assert_eq!(detect_gap(Some(4), 7), Some(5));
}

#[test]
fn parses_event_types() {
    assert_eq!(EventType::from_str("transaction").unwrap(), EventType::Transaction);
    assert_eq!(EventType::from_str("batch_start").unwrap(), EventType::BatchStart);
    assert_eq!(EventType::from_str("batch_end").unwrap(), EventType::BatchEnd);
    assert_eq!(EventType::from_str("new_proof").unwrap(), EventType::NewProof);
    match EventType::from_str("Transaction") {
        Err(PayloadParseError::InvalidEventType(t)) => assert_eq!(t, "Transaction"),
        other => panic!("unexpected {other:?}"),
    }
}

#[test]
fn parses_event_payloads() {
    assert_eq!(
        EventsNotificationPayload::parse_csv("12,3,transaction,7").unwrap(),
        EventsNotificationPayload {
            event_id: 12,
            sequence_number: 3,
            event_type: EventType::Transaction,
            index_in_batch: Some(7),
        }
    );
    assert_eq!(
        EventsNotificationPayload::parse_csv("+13,4,batch_end,").unwrap(),
        EventsNotificationPayload {
            event_id: 13,
            sequence_number: 4,
            event_type: EventType::BatchEnd,
            index_in_batch: None,
        }
    );
    assert_eq!(
        EventsNotificationPayload::parse_csv("18446744073709551615,0,new_proof,").unwrap().event_id,
        u64::MAX
    );
}

#[test]
fn refuses_bad_event_payloads() {
    assert!(matches!(
        EventsNotificationPayload::parse_csv("1,2,batch_end"),
        Err(PayloadParseError::FieldCount { expected: 4, got: 3 })
    ));
    assert!(matches!(
        EventsNotificationPayload::parse_csv(""),
        Err(PayloadParseError::FieldCount { expected: 4, got: 1 })
    ));
    match EventsNotificationPayload::parse_csv("x,2,batch_end,") {
        Err(PayloadParseError::InvalidEventId(t)) => assert_eq!(t, "x"),
        other => panic!("unexpected {other:?}"),
    }
    match EventsNotificationPayload::parse_csv("18446744073709551616,2,batch_end,") {
        Err(PayloadParseError::InvalidEventId(t)) => assert_eq!(t, "18446744073709551616"),
        other => panic!("unexpected {other:?}"),
    }
    match EventsNotificationPayload::parse_csv("1,-2,batch_end,") {
        Err(PayloadParseError::InvalidSequenceNumber(t)) => assert_eq!(t, "-2"),
        other => panic!("unexpected {other:?}"),
    }
    match EventsNotificationPayload::parse_csv("1,2,batch,") {
        Err(PayloadParseError::InvalidEventType(t)) => assert_eq!(t, "batch"),
        other => panic!("unexpected {other:?}"),
    }
    match EventsNotificationPayload::parse_csv("1,2,transaction,+") {
        Err(PayloadParseError::InvalidIndexInBatch(t)) => assert_eq!(t, "+"),
        other => panic!("unexpected {other:?}"),
    }
}

#[test]
fn parses_leader_payloads() {
    let payload = format!("{NODE},1700000000.25");
    let leader = LeaderNotificationPayload::parse_csv(&payload).unwrap();
    assert_eq!(leader.node_id, NODE_ID);
    assert_eq!(leader.last_updated_timestamp, "1700000000.25");
    match LeaderNotificationPayload::parse_csv("not-a-uuid,1") {
        Err(PayloadParseError::InvalidNodeId(t)) => assert_eq!(t, "not-a-uuid"),
        other => panic!("unexpected {other:?}"),
    }
    match LeaderNotificationPayload::parse_csv(&format!("{NODE},yesterday")) {
        Err(PayloadParseError::InvalidTimestamp(t)) => assert_eq!(t, "yesterday"),
        other => panic!("unexpected {other:?}"),
    }
    assert!(matches!(
        LeaderNotificationPayload::parse_csv("a,b,c"),
        Err(PayloadParseError::FieldCount { expected: 2, got: 3 })
    ));
}

#[test]
fn notifications_track_the_last_event() {
    let mut latest = Some(4);
    let (backfill, parsed) = create_event_futures_from_notification(&mut latest, "7,2,batch_end,").unwrap();
    assert_eq!(backfill, Some(Backfill { latest_received_event_id: Some(4), target_event_id: 7 }));
    assert_eq!(parsed.event_id, 7);
    assert_eq!(latest, Some(7));
    let (backfill, _) = create_event_futures_from_notification(&mut latest, "8,2,batch_end,").unwrap();
    assert_eq!(backfill, None);
    assert_eq!(latest, Some(8));
    assert!(create_event_futures_from_notification(&mut latest, "oops").is_err());
    assert_eq!(latest, Some(8));
}

#[test]
fn event_fetches() {
    let tx = EventsNotificationPayload {
        event_id: 1,
        sequence_number: 3,
        event_type: EventType::Transaction,
        index_in_batch: Some(2),
    };
    assert!(matches!(
        create_event_future(tx),
        EventFetch::TxBody { sequence_number: 3, index_in_batch: 2 }
    ));
    let start = EventsNotificationPayload { event_type: EventType::BatchStart, index_in_batch: None, ..tx };
    assert!(matches!(create_event_future(start), EventFetch::BatchMetadata { sequence_number: 3 }));
    let end = EventsNotificationPayload { event_type: EventType::BatchEnd, ..start };
    assert!(matches!(create_event_future(end), EventFetch::Ready(DbEvent::BatchClosed(3))));
    let proof = EventsNotificationPayload { event_type: EventType::NewProof, ..start };
    assert!(matches!(create_event_future(proof), EventFetch::Ready(DbEvent::ProofBlobAccepted(3))));
}

#[test]
fn backfill_is_paged() {
    assert_eq!(backfill_pages(Some(4), 7), vec![(5, 7)]);
    assert_eq!(backfill_pages(None, 4500), vec![(0, 2000), (2000, 4000), (4000, 4500)]);
    assert_eq!(backfill_pages(Some(9), 5), vec![]);
    assert_eq!(backfill_pages(Some(4), 5), vec![]);
    assert_eq!(
        backfill_pages(Some(u64::MAX - 2501), u64::MAX - 1500),
        vec![(u64::MAX - 2500, u64::MAX - 1500)]
    );
}

#[test]
fn leader_changes() {
    let us: Result<LeaderNotificationPayload, PayloadParseError> =
        Ok(LeaderNotificationPayload { node_id: 1, last_updated_timestamp: "1".to_string() });
    let other: Result<LeaderNotificationPayload, PayloadParseError> =
        Ok(LeaderNotificationPayload { node_id: 2, last_updated_timestamp: "1".to_string() });
    let bad: Result<LeaderNotificationPayload, PayloadParseError> =
        Err(PayloadParseError::InvalidNodeId("x".to_string()));
    assert_eq!(
        handle_leader_change_notification(ReplicaState::Replica, &us, 1),
        LeaderChangeAction::StartTransitionToMaster
    );
    assert_eq!(handle_leader_change_notification(ReplicaState::Master, &us, 1), LeaderChangeAction::Nothing);
    assert_eq!(
        handle_leader_change_notification(ReplicaState::Replica, &other, 1),
        LeaderChangeAction::RecordHeartbeat
    );
    assert_eq!(
        handle_leader_change_notification(ReplicaState::TransitioningToMaster, &other, 1),
        LeaderChangeAction::TransitionToReplicaAndRecordHeartbeat
    );
    assert_eq!(handle_leader_change_notification(ReplicaState::Master, &bad, 1), LeaderChangeAction::Nothing);
    assert!(aborts_transition(&other, 1));
    assert!(!aborts_transition(&us, 1));
    assert!(!aborts_transition(&bad, 1));
}

#[test]
fn heartbeats() {
    assert_eq!(heartbeat_outcome(1, Some(7), 7), HeartbeatOutcome::Confirmed);
    assert_eq!(heartbeat_outcome(0, Some(8), 7), HeartbeatOutcome::Demoted);
    assert_eq!(heartbeat_outcome(0, Some(7), 7), HeartbeatOutcome::Inconsistent);
    assert_eq!(heartbeat_outcome(1, Some(8), 7), HeartbeatOutcome::Inconsistent);
    assert_eq!(heartbeat_outcome(2, Some(7), 7), HeartbeatOutcome::Inconsistent);
    assert_eq!(heartbeat_outcome(1, None, 7), HeartbeatOutcome::Inconsistent);
}

#[test]
fn takeover_needs_readiness_and_a_silent_leader() {
    let ready: Result<(), SequencerNotReadyDetails> = Ok(());
    let replica_mode: Result<(), SequencerNotReadyDetails> = Err(SequencerNotReadyDetails::ReplicaMode);
    let syncing: Result<(), SequencerNotReadyDetails> = Err(SequencerNotReadyDetails::Startup);
    assert!(should_attempt_takeover(&ready, 11, 10));
    assert!(!should_attempt_takeover(&ready, 10, 10));
    assert!(should_attempt_takeover(&replica_mode, 11, 10));
    assert!(!should_attempt_takeover(&syncing, 11, 10));
}

#[test]
fn transitions() {
    assert!(check_event_notification_allowed(ReplicaState::Replica).is_ok());
    assert!(check_event_notification_allowed(ReplicaState::TransitioningToMaster).is_err());
    assert!(can_complete_transition_to_master(ReplicaState::TransitioningToMaster, 0));
    assert!(!can_complete_transition_to_master(ReplicaState::TransitioningToMaster, 1));
    assert!(!can_complete_transition_to_master(ReplicaState::Replica, 0));
}

#[test]
fn timestamp_syntax_is_that_of_the_float_parser() {
    let cases = [
        "1700000000.25", "1", "-1", "+1", "1.", ".5", "1e5", "1E-5", "1.5e+10", "inf", "-Infinity",
        "NaN", "nAn", "+inf", "", ".", "+", "-", "e5", "1e", "1e+", "1.2.3", " 1", "1 ", "abc",
        "infinit", "1x", "0x10", "1_000", "1e5.5", "..1", "-.5", "5.e3",
    ];
    for c in cases {
        assert_eq!(float_text_ok(c), c.parse::<f64>().is_ok(), "{c:?}");
    }
}
