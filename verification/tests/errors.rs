use sov_sequencer::errors::{
    accept_tx_refusal_error,
    err_if_cant_fit_tx, err_if_tx_too_big, error_not_fully_synced, generic_accept_tx_error,
    into_http_error, no_batch_error, not_enough_gas_error, pre_exec_err_to_accept_tx_err,
    reject_reason_to_error, shut_down_error, submit_batch_failed_error, undecodable_tx_error,
    DetailValue, ErrorObject, PreExecError, RejectReason, RollupBlockExecutorError,
};
use sov_sequencer::preferred::batch_size_tracker::BatchSizeTracker;
use sov_sequencer::preferred::decisions::AcceptTxRefusal;
use sov_sequencer::types::{FullyBakedTx, SequencerNotReadyDetails};

fn message(e: &ErrorObject) -> String {
    assert_eq!(e.details.len(), 1);
    assert_eq!(e.details[0].key, "message");
    match &e.details[0].value {
        DetailValue::Text(t) => t.clone(),
        other => panic!("unexpected {other:?}"),
    }
}

fn number(e: &ErrorObject, i: usize, key: &str) -> u128 {
    assert_eq!(e.details[i].key, key);
    match &e.details[i].value {
        DetailValue::Number(n) => *n,
        other => panic!("unexpected {other:?}"),
    }
}

#[test]
fn rejections() {
    let e = reject_reason_to_error(RejectReason::SequencerOutOfGas, String::new());
    assert_eq!((e.status, e.title.as_str()), (503, "Batch is full"));
    assert_eq!(
        message(&e),
        "More transactions were submitted that the sequencer is allowed to put into a single batch. Wait a few seconds and try again."
    );
    let e = reject_reason_to_error(RejectReason::InsufficientReward { expected: 10, found: 3 }, String::new());
    assert_eq!((e.status, e.title.as_str()), (403, "Sequencer tip too low"));
    assert_eq!(e.details.len(), 3);
    assert_eq!(number(&e, 1, "minimum"), 10);
    assert_eq!(number(&e, 2, "found"), 3);
    let e = reject_reason_to_error(RejectReason::SenderMustBeAdmin, "Call::Foo".to_string());
    assert_eq!((e.status, e.title.as_str()), (403, "The transaction is forbidden"));
    assert_eq!(
        message(&e),
        "Only designated admins are allowed to send `Call::Foo` transactions through this sequencer"
    );
}

#[test]
fn executor_errors() {
    let e = into_http_error(RollupBlockExecutorError::DecodeCall("bad".to_string()));
    assert_eq!((e.status, e.title.as_str(), message(&e).as_str()), (400, "Malformed transaction", "bad"));
    let e = into_http_error(RollupBlockExecutorError::Overloaded);
    assert_eq!((e.status, e.title.as_str()), (503, "Temporarily unavailable"));
    let e = into_http_error(RollupBlockExecutorError::Rejected {
        reason: RejectReason::SequencerOutOfGas,
        call: String::new(),
    });
    assert_eq!(e.title, "Batch is full");
    let e = into_http_error(RollupBlockExecutorError::UnsuccessfulTransaction("r".to_string()));
    assert_eq!((e.status, e.title.as_str(), message(&e).as_str()), (400, "The transaction is invalid", "r"));
}

#[test]
fn pre_execution_errors() {
    let e = pre_exec_err_to_accept_tx_err(PreExecError::SequencerError("s".to_string()));
    assert_eq!(e.status, 503);
    assert_eq!(
        e.title,
        "The sequencer is currently unavailable; contact the administrator if the problem persists"
    );
    let e = pre_exec_err_to_accept_tx_err(PreExecError::AuthError("a".to_string()));
    assert_eq!((e.status, e.title.as_str(), message(&e).as_str()), (400, "The transaction is invalid", "a"));
    let e = generic_accept_tx_error("d".to_string());
    assert_eq!((e.status, message(&e).as_str()), (400, "d"));
}

#[test]
fn availability_errors() {
    let e = shut_down_error();
    assert_eq!((e.status, e.title.as_str()), (503, "The sequencer is shutting down"));
    assert_eq!(message(&e), "The sequencer is shutting down. Transactions cannot be accepted at this time");
    let e = error_not_fully_synced(SequencerNotReadyDetails::Startup);
    assert_eq!(e.status, 503);
    assert!(matches!(e.details[0].value, DetailValue::NotReady(SequencerNotReadyDetails::Startup)));
    let e = not_enough_gas_error("out of gas".to_string());
    assert_eq!((e.status, e.title.as_str(), message(&e).as_str()), (403, "Not enough gas for pre-execution checks", "out of gas"));
    let e = undecodable_tx_error();
    assert_eq!((e.status, message(&e).as_str()), (400, "Unable to decode transaction"));
    let e = no_batch_error();
    assert_eq!(e.status, 400);
    assert!(e.details.is_empty());
    let e = submit_batch_failed_error("conflict".to_string());
    assert_eq!((e.status, e.title.as_str(), message(&e).as_str()), (409, "Failed to submit batch", "conflict"));
}

#[test]
fn size_errors() {
    let tracker = BatchSizeTracker::new(100);
    assert!(err_if_cant_fit_tx(&tracker, &FullyBakedTx::new(vec![0; 83])).is_ok());
    let e = err_if_cant_fit_tx(&tracker, &FullyBakedTx::new(vec![0; 84])).unwrap_err();
    assert_eq!(e.status, 503);
    assert_eq!(e.title, "Transaction cannot be included in the batch due to batch size limitations");
    assert_eq!(number(&e, 1, "serialized_tx_size"), 88);
    assert_eq!(number(&e, 2, "current_batch_size"), 13);
    assert_eq!(number(&e, 3, "max_batch_size"), 100);
    assert!(err_if_tx_too_big(10, &FullyBakedTx::new(vec![0; 10])).is_ok());
    let e = err_if_tx_too_big(10, &FullyBakedTx::new(vec![0; 11])).unwrap_err();
    assert_eq!((e.status, e.title.as_str()), (413, "Transaction is too big"));
    assert_eq!(number(&e, 0, "max_allowed_size"), 10);
    assert_eq!(number(&e, 1, "submitted_size"), 11);
}

#[test]
fn refused_transactions_are_answered_by_kind() {
    let tracker = BatchSizeTracker::new(100);
    let tx = FullyBakedTx::new(vec![0; 84]);
    let e = accept_tx_refusal_error(AcceptTxRefusal::ShuttingDown, &tracker, &tx).unwrap();
    assert_eq!((e.status, e.title.as_str()), (503, "The sequencer is shutting down"));
    let e = accept_tx_refusal_error(AcceptTxRefusal::InvalidTx("bad".to_string()), &tracker, &tx).unwrap();
    assert_eq!((e.status, e.title.as_str()), (400, "The transaction is invalid"));
    assert_eq!(message(&e), "bad");
    let e = accept_tx_refusal_error(AcceptTxRefusal::Undecodable, &tracker, &tx).unwrap();
    assert_eq!((e.status, message(&e).as_str()), (400, "Unable to decode transaction"));
    let e = accept_tx_refusal_error(
        AcceptTxRefusal::NotReady(SequencerNotReadyDetails::ReplicaMode),
        &tracker,
        &tx,
    )
    .unwrap();
    assert_eq!(e.status, 503);
    assert_eq!(e.details[0].key, "details");
    let e = accept_tx_refusal_error(AcceptTxRefusal::DoesNotFit, &tracker, &tx).unwrap();
    assert_eq!(e.status, 503);
    assert_eq!(number(&e, 1, "serialized_tx_size"), 88);
    assert!(accept_tx_refusal_error(AcceptTxRefusal::Overloaded, &tracker, &tx).is_none());
    assert!(accept_tx_refusal_error(AcceptTxRefusal::Database("x".to_string()), &tracker, &tx).is_none());
}
