//! The HTTP errors the sequencer answers refused requests with.
use vstd::prelude::*;
use vstd::string::*;

use crate::preferred::batch_size_tracker::{BatchSizeTracker, PER_TX_BORSH_OVERHEAD};
use crate::preferred::decisions::AcceptTxRefusal;
use crate::types::{FullyBakedTx, SequencerNotReadyDetails};

verus! {

/// The decimal representation of `n`, without leading zeros.
pub open spec fn decimal(n: nat) -> Seq<char>
    decreases n,
{
    if n < 10 {
        seq![digit_char(n)]
    } else {
        decimal(n / 10).push(digit_char(n % 10))
    }
}

/// The character of the digit `d`.
pub open spec fn digit_char(d: nat) -> char {
    if d == 0 { '0' }
    else if d == 1 { '1' }
    else if d == 2 { '2' }
    else if d == 3 { '3' }
    else if d == 4 { '4' }
    else if d == 5 { '5' }
    else if d == 6 { '6' }
    else if d == 7 { '7' }
    else if d == 8 { '8' }
    else { '9' }
}

/// The one-character text of the digit `d`.
fn digit_str(d: u128) -> (r: &'static str)
    requires
        d < 10,
    ensures
        r@ == seq![digit_char(d as nat)],
{
    match d {
        0 => {
            proof {
                reveal_strlit("0");
            }
            "0"
        },
        1 => {
            proof {
                reveal_strlit("1");
            }
            "1"
        },
        2 => {
            proof {
                reveal_strlit("2");
            }
            "2"
        },
        3 => {
            proof {
                reveal_strlit("3");
            }
            "3"
        },
        4 => {
            proof {
                reveal_strlit("4");
            }
            "4"
        },
        5 => {
            proof {
                reveal_strlit("5");
            }
            "5"
        },
        6 => {
            proof {
                reveal_strlit("6");
            }
            "6"
        },
        7 => {
            proof {
                reveal_strlit("7");
            }
            "7"
        },
        8 => {
            proof {
                reveal_strlit("8");
            }
            "8"
        },
        _ => {
            proof {
                reveal_strlit("9");
            }
            "9"
        },
    }
}

/// The decimal representation of `n`, without leading zeros.
pub(crate) fn decimal_text(n: u128) -> (r: String)
    ensures
        r@ == decimal(n as nat),
    decreases n,
{
    if n < 10 {
        String::from_str(digit_str(n))
    } else {
        let mut s = decimal_text(n / 10);
        s.append(digit_str(n % 10));
        assert(s@ =~= decimal((n / 10) as nat).push(digit_char((n % 10) as nat)));
        s
    }
}

/// A value in the details of an error.
#[derive(Debug)]
pub enum DetailValue {
    /// A piece of text.
    Text(String),
    /// A number.
    Number(u128),
    /// Why the sequencer is not ready, in its JSON form.
    NotReady(SequencerNotReadyDetails),
}

/// A named value in the details of an error.
#[derive(Debug)]
pub struct ErrorDetail {
    pub key: String,
    pub value: DetailValue,
}

/// An HTTP error: a status code, a title, and a JSON object of details.
#[derive(Debug)]
pub struct ErrorObject {
    pub status: u16,
    pub title: String,
    pub details: Vec<ErrorDetail>,
}

/// The error has the given status and title.
pub open spec fn has_status_and_title(e: ErrorObject, status: u16, title: Seq<char>) -> bool {
    e.status == status && e.title@ == title
}

/// The details hold exactly one entry, `"message"`, with the given text.
pub open spec fn has_message_only(e: ErrorObject, message: Seq<char>) -> bool {
    &&& e.details@.len() == 1
    &&& e.details@[0].key@ == "message"@
    &&& e.details@[0].value matches DetailValue::Text(t) && t@ == message
}

fn message_detail(message: String) -> (r: Vec<ErrorDetail>)
    ensures
        r@.len() == 1,
        r@[0].key@ == "message"@,
        r@[0].value matches DetailValue::Text(t) && t@ == message@,
{
    let mut v: Vec<ErrorDetail> = Vec::new();
    v.push(ErrorDetail { key: "message".to_owned(), value: DetailValue::Text(message) });
    v
}

/// Why the runtime rejected a transaction in a preferred batch.
#[derive(Debug, Clone, Copy, PartialEq, Eq, Structural)]
pub enum RejectReason {
    /// The batch has no gas left for the transaction.
    SequencerOutOfGas,
    /// The transaction's net fee is below the sequencer's minimum.
    InsufficientReward { expected: u128, found: u128 },
    /// Only admins may send this call through the sequencer.
    SenderMustBeAdmin,
}

/// The message given when a non-admin sends an admin-only call, whose
/// pretty debug representation is `call_debug`.
pub open spec fn sender_must_be_admin_message(call_debug: Seq<char>) -> Seq<char> {
    "Only designated admins are allowed to send `"@ + call_debug
        + "` transactions through this sequencer"@
}

/// `r` is the HTTP error for the rejection `error` of a call whose pretty
/// debug representation is `call_debug`.
pub open spec fn is_reject_reason_error(r: ErrorObject, error: RejectReason, call_debug: Seq<char>) -> bool {
    match error {
        RejectReason::SequencerOutOfGas => has_status_and_title(r, 503, "Batch is full"@)
            && has_message_only(
            r,
            "More transactions were submitted that the sequencer is allowed to put into a single batch. Wait a few seconds and try again."@,
        ),
        RejectReason::InsufficientReward { expected, found } => {
            &&& has_status_and_title(r, 403, "Sequencer tip too low"@)
            &&& r.details@.len() == 3
            &&& r.details@[0].key@ == "message"@
            &&& r.details@[0].value matches DetailValue::Text(t) && t@
                == "This transaction did not pay a sufficient net fee."@
            &&& r.details@[1].key@ == "minimum"@
            &&& r.details@[1].value == DetailValue::Number(expected)
            &&& r.details@[2].key@ == "found"@
            &&& r.details@[2].value == DetailValue::Number(found)
        },
        RejectReason::SenderMustBeAdmin => has_status_and_title(
            r,
            403,
            "The transaction is forbidden"@,
        ) && has_message_only(r, sender_must_be_admin_message(call_debug)),
    }
}

/// The HTTP error for a rejected transaction.
pub fn reject_reason_to_error(error: RejectReason, call_debug: String) -> (r: ErrorObject)
    ensures
        is_reject_reason_error(r, error, call_debug@),
{
    match error {
        RejectReason::SequencerOutOfGas => ErrorObject {
            status: 503,
            title: "Batch is full".to_owned(),
            details: message_detail(
                "More transactions were submitted that the sequencer is allowed to put into a single batch. Wait a few seconds and try again.".to_owned(),
            ),
        },
        RejectReason::InsufficientReward { expected, found } => {
            let mut details = message_detail(
                "This transaction did not pay a sufficient net fee.".to_owned(),
            );
            details.push(
                ErrorDetail { key: "minimum".to_owned(), value: DetailValue::Number(expected) },
            );
            details.push(ErrorDetail { key: "found".to_owned(), value: DetailValue::Number(found) });
            ErrorObject { status: 403, title: "Sequencer tip too low".to_owned(), details }
        },
        RejectReason::SenderMustBeAdmin => {
            let m = "Only designated admins are allowed to send `".to_owned();
            let m = m.concat(call_debug.as_str());
            let m = m.concat("` transactions through this sequencer");
            ErrorObject {
                status: 403,
                title: "The transaction is forbidden".to_owned(),
                details: message_detail(m),
            }
        },
    }
}

/// The error of a transaction that is invalid, with the debug representation
/// of what went wrong.
pub fn generic_accept_tx_error(details_debug: String) -> (r: ErrorObject)
    ensures
        has_status_and_title(r, 400, "The transaction is invalid"@),
        has_message_only(r, details_debug@),
{
    ErrorObject {
        status: 400,
        title: "The transaction is invalid".to_owned(),
        details: message_detail(details_debug),
    }
}

/// Why a transaction failed the checks before its execution.
#[derive(Debug)]
pub enum PreExecError {
    /// The sequencer itself could not proceed, with the error's text.
    SequencerError(String),
    /// The transaction failed authentication, with the error's text.
    AuthError(String),
}

/// The error of a transaction that failed the checks before its execution.
pub fn pre_exec_err_to_accept_tx_err(err: PreExecError) -> (r: ErrorObject)
    ensures
        err matches PreExecError::SequencerError(e) ==> has_status_and_title(
            r,
            503,
            "The sequencer is currently unavailable; contact the administrator if the problem persists"@,
        ) && has_message_only(r, e@),
        err matches PreExecError::AuthError(e) ==> has_status_and_title(
            r,
            400,
            "The transaction is invalid"@,
        ) && has_message_only(r, e@),
{
    match err {
        PreExecError::SequencerError(e) => ErrorObject {
            status: 503,
            title: "The sequencer is currently unavailable; contact the administrator if the problem persists".to_owned(),
            details: message_detail(e),
        },
        PreExecError::AuthError(e) => ErrorObject {
            status: 400,
            title: "The transaction is invalid".to_owned(),
            details: message_detail(e),
        },
    }
}

/// Why the preferred sequencer's executor refused a transaction.
#[derive(Debug)]
pub enum RollupBlockExecutorError {
    /// The call could not be decoded; the text of the decoding error.
    DecodeCall(String),
    /// The executor is busy with another transaction.
    Overloaded,
    /// The runtime rejected the transaction; `call` is the pretty debug
    /// representation of the call.
    Rejected { reason: RejectReason, call: String },
    /// The transaction was executed but failed; the debug representation of
    /// its receipt.
    UnsuccessfulTransaction(String),
}

/// The HTTP error for a transaction the executor refused.
pub fn into_http_error(e: RollupBlockExecutorError) -> (r: ErrorObject)
    ensures
        e matches RollupBlockExecutorError::DecodeCall(m) ==> has_status_and_title(
            r,
            400,
            "Malformed transaction"@,
        ) && has_message_only(r, m@),
        e matches RollupBlockExecutorError::Overloaded ==> has_status_and_title(
            r,
            503,
            "Temporarily unavailable"@,
        ) && has_message_only(r, "The sequencer is temporarily overloaded. Try again in a few seconds"@),
        e matches RollupBlockExecutorError::Rejected { reason, call } ==> is_reject_reason_error(
            r,
            reason,
            call@,
        ),
        e matches RollupBlockExecutorError::UnsuccessfulTransaction(d) ==> has_status_and_title(
            r,
            400,
            "The transaction is invalid"@,
        ) && has_message_only(r, d@),
{
    match e {
        RollupBlockExecutorError::DecodeCall(m) => ErrorObject {
            status: 400,
            title: "Malformed transaction".to_owned(),
            details: message_detail(m),
        },
        RollupBlockExecutorError::Overloaded => ErrorObject {
            status: 503,
            title: "Temporarily unavailable".to_owned(),
            details: message_detail(
                "The sequencer is temporarily overloaded. Try again in a few seconds".to_owned(),
            ),
        },
        RollupBlockExecutorError::Rejected { reason, call } => reject_reason_to_error(reason, call),
        RollupBlockExecutorError::UnsuccessfulTransaction(d) => generic_accept_tx_error(d),
    }
}

/// The error given while the sequencer shuts down.
pub fn shut_down_error() -> (r: ErrorObject)
    ensures
        has_status_and_title(r, 503, "The sequencer is shutting down"@),
        has_message_only(r, "The sequencer is shutting down. Transactions cannot be accepted at this time"@),
{
    ErrorObject {
        status: 503,
        title: "The sequencer is shutting down".to_owned(),
        details: message_detail(
            "The sequencer is shutting down. Transactions cannot be accepted at this time".to_owned(),
        ),
    }
}

/// The error given while the node is not synced enough to accept
/// transactions; its details are the reason, in its JSON form.
pub fn error_not_fully_synced(details: SequencerNotReadyDetails) -> (r: ErrorObject)
    ensures
        has_status_and_title(
            r,
            503,
            "The node is not fully synced with the DA head and can't accept transactions at this time; try again later"@,
        ),
        r.details@.len() == 1,
        r.details@[0].key@ == "details"@,
        r.details@[0].value == DetailValue::NotReady(details),
{
    let mut v: Vec<ErrorDetail> = Vec::new();
    v.push(ErrorDetail { key: "details".to_owned(), value: DetailValue::NotReady(details) });
    ErrorObject {
        status: 503,
        title: "The node is not fully synced with the DA head and can't accept transactions at this time; try again later".to_owned(),
        details: v,
    }
}

/// `e` is the error of a transaction `tx` that does not fit in the batch
/// that `tracker` counts, with the sizes involved.
pub open spec fn is_cant_fit_error(e: ErrorObject, tracker: BatchSizeTracker, tx: FullyBakedTx) -> bool {
    &&& has_status_and_title(
        e,
        503,
        "Transaction cannot be included in the batch due to batch size limitations"@,
    )
    &&& e.details@.len() == 4
    &&& e.details@[0].key@ == "message"@
    &&& e.details@[0].value matches DetailValue::Text(t) && t@
        == "The transaction is too large."@
    &&& e.details@[1].key@ == "serialized_tx_size"@
    &&& e.details@[1].value == DetailValue::Number(
        (tx.data@.len() + PER_TX_BORSH_OVERHEAD) as u128,
    )
    &&& e.details@[2].key@ == "current_batch_size"@
    &&& e.details@[2].value == DetailValue::Number(tracker.current_batch_size as u128)
    &&& e.details@[3].key@ == "max_batch_size"@
    &&& e.details@[3].value == DetailValue::Number(tracker.max_batch_size as u128)
}

/// Refuses a transaction that does not fit in the batch that `tracker`
/// counts, with the sizes involved.
pub fn err_if_cant_fit_tx(tracker: &BatchSizeTracker, tx: &FullyBakedTx) -> (r: Result<
    (),
    ErrorObject,
>)
    requires
        tracker.current_batch_size + tx.data@.len() + PER_TX_BORSH_OVERHEAD <= usize::MAX,
    ensures
        r is Ok <==> tracker.current_batch_size + tx.data@.len() + PER_TX_BORSH_OVERHEAD
            <= tracker.max_batch_size,
        r matches Err(e) ==> is_cant_fit_error(e, *tracker, *tx),
{
    let len = tx.data.len();
    if !tracker.can_fit_tx(len) {
        let mut details = message_detail("The transaction is too large.".to_owned());
        details.push(
            ErrorDetail {
                key: "serialized_tx_size".to_owned(),
                value: DetailValue::Number(BatchSizeTracker::serialized_tx_size(len) as u128),
            },
        );
        details.push(
            ErrorDetail {
                key: "current_batch_size".to_owned(),
                value: DetailValue::Number(tracker.current_batch_size as u128),
            },
        );
        details.push(
            ErrorDetail {
                key: "max_batch_size".to_owned(),
                value: DetailValue::Number(tracker.max_batch_size as u128),
            },
        );
        return Err(
            ErrorObject {
                status: 503,
                title: "Transaction cannot be included in the batch due to batch size limitations".to_owned(),
                details,
            },
        );
    }
    Ok(())
}

/// The HTTP error a refused transaction is answered with: shutting down,
/// an invalid transaction (with the text of the hashing error), an
/// undecodable transaction, a sequencer that is not ready (with the
/// reason), or a transaction too large for the batch in progress (with the
/// sizes). `None` for an overloaded sequencer or a database error, which
/// are answered with the REST utilities' own errors.
pub fn accept_tx_refusal_error(refusal: AcceptTxRefusal, tracker: &BatchSizeTracker, tx: &FullyBakedTx) -> (r:
    Option<ErrorObject>)
    requires
        refusal is DoesNotFit ==> tracker.current_batch_size + tx.data@.len() + PER_TX_BORSH_OVERHEAD
            <= usize::MAX,
        refusal is DoesNotFit ==> tracker.current_batch_size + tx.data@.len() + PER_TX_BORSH_OVERHEAD
            > tracker.max_batch_size,
    ensures
        match refusal {
            AcceptTxRefusal::ShuttingDown => r matches Some(e) && has_status_and_title(
                e,
                503,
                "The sequencer is shutting down"@,
            ) && has_message_only(
                e,
                "The sequencer is shutting down. Transactions cannot be accepted at this time"@,
            ),
            AcceptTxRefusal::InvalidTx(m) => r matches Some(e) && has_status_and_title(
                e,
                400,
                "The transaction is invalid"@,
            ) && has_message_only(e, m@),
            AcceptTxRefusal::Undecodable => r matches Some(e) && has_status_and_title(
                e,
                400,
                "Unable to decode transaction"@,
            ) && has_message_only(e, "Unable to decode transaction"@),
            AcceptTxRefusal::NotReady(d) => r matches Some(e) && has_status_and_title(
                e,
                503,
                "The node is not fully synced with the DA head and can't accept transactions at this time; try again later"@,
            ) && e.details@.len() == 1 && e.details@[0].key@ == "details"@ && e.details@[0].value
                == DetailValue::NotReady(d),
            AcceptTxRefusal::DoesNotFit => r matches Some(e) && is_cant_fit_error(e, *tracker, *tx),
            AcceptTxRefusal::Overloaded => r is None,
            AcceptTxRefusal::Database(_) => r is None,
        },
{
    match refusal {
        AcceptTxRefusal::ShuttingDown => Some(shut_down_error()),
        AcceptTxRefusal::InvalidTx(m) => Some(generic_accept_tx_error(m)),
        AcceptTxRefusal::Undecodable => Some(undecodable_tx_error()),
        AcceptTxRefusal::NotReady(d) => Some(error_not_fully_synced(d)),
        AcceptTxRefusal::DoesNotFit => match err_if_cant_fit_tx(tracker, tx) {
            Err(e) => Some(e),
            Ok(()) => None,
        },
        AcceptTxRefusal::Overloaded | AcceptTxRefusal::Database(_) => None,
    }
}

/// Refuses a transaction larger than a whole batch may be.
pub fn err_if_tx_too_big(max_batch_size_bytes: usize, tx: &FullyBakedTx) -> (r: Result<
    (),
    ErrorObject,
>)
    ensures
        r is Ok <==> tx.data@.len() <= max_batch_size_bytes,
        r matches Err(e) ==> {
            &&& has_status_and_title(e, 413, "Transaction is too big"@)
            &&& e.details@.len() == 2
            &&& e.details@[0].key@ == "max_allowed_size"@
            &&& e.details@[0].value == DetailValue::Number(max_batch_size_bytes as u128)
            &&& e.details@[1].key@ == "submitted_size"@
            &&& e.details@[1].value == DetailValue::Number(tx.data@.len() as u128)
        },
{
    let len = tx.data.len();
    if len > max_batch_size_bytes {
        let mut details: Vec<ErrorDetail> = Vec::new();
        details.push(
            ErrorDetail {
                key: "max_allowed_size".to_owned(),
                value: DetailValue::Number(max_batch_size_bytes as u128),
            },
        );
        details.push(
            ErrorDetail { key: "submitted_size".to_owned(), value: DetailValue::Number(len as u128) },
        );
        return Err(
            ErrorObject { status: 413, title: "Transaction is too big".to_owned(), details },
        );
    }
    Ok(())
}

/// The error of a transaction whose sender cannot pay for the checks before
/// its execution; `message` is the text of the gas error.
pub fn not_enough_gas_error(message: String) -> (r: ErrorObject)
    ensures
        has_status_and_title(r, 403, "Not enough gas for pre-execution checks"@),
        has_message_only(r, message@),
{
    ErrorObject {
        status: 403,
        title: "Not enough gas for pre-execution checks".to_owned(),
        details: message_detail(message),
    }
}

/// The error of a transaction that cannot be decoded.
pub fn undecodable_tx_error() -> (r: ErrorObject)
    ensures
        has_status_and_title(r, 400, "Unable to decode transaction"@),
        has_message_only(r, "Unable to decode transaction"@),
{
    ErrorObject {
        status: 400,
        title: "Unable to decode transaction".to_owned(),
        details: message_detail("Unable to decode transaction".to_owned()),
    }
}

/// The error when a requested batch cannot be produced: the DA has not
/// progressed far enough, or no valid transaction is available.
pub fn no_batch_error() -> (r: ErrorObject)
    ensures
        has_status_and_title(
            r,
            400,
            "Can't produce a batch at this time, wait until the DA has progressed more slots or ensure that valid transactions are available"@,
        ),
        r.details@.len() == 0,
{
    ErrorObject {
        status: 400,
        title: "Can't produce a batch at this time, wait until the DA has progressed more slots or ensure that valid transactions are available".to_owned(),
        details: Vec::new(),
    }
}

/// The error when submitting a batch failed; `message` is the failure's text.
pub fn submit_batch_failed_error(message: String) -> (r: ErrorObject)
    ensures
        has_status_and_title(r, 409, "Failed to submit batch"@),
        has_message_only(r, message@),
{
    ErrorObject { status: 409, title: "Failed to submit batch".to_owned(), details: message_detail(message) }
}

} // verus!
