//! The decisions the preferred sequencer makes about when to start and close
//! batches, how far to advance the visible slot number, and how to react to a
//! state update from the node.
use vstd::prelude::*;

use crate::types::SequencerNotReadyDetails;

verus! {

/// How far, at most, one batch advances the visible slot number, given the
/// rollup's limit `max_slots_to_advance`.
///
/// The distance `delta` from the current visible slot to the latest finalized
/// one (less one when room is left for the next batch) is used as follows:
/// up to the ideal lag, the batch advances by one slot; beyond it, by the
/// excess over the ideal lag. The result is capped at 255 and at
/// `max_slots_to_advance`. When it would be zero, the sequencer has to wait
/// for the DA to finalize another slot.
pub open spec fn spec_next_visible_slot_number_increase(
    current_visible_slot_number: u64,
    latest_finalized_slot_number: u64,
    leave_space_for_next_batch: bool,
    ideal_lag_behind_finalized_slot: u64,
    max_slots_to_advance: u8,
) -> Result<u8, SequencerNotReadyDetails> {
    let reserve: int = if leave_space_for_next_batch { 1 } else { 0 };
    let delta: int = latest_finalized_slot_number - current_visible_slot_number - reserve;
    let to_use: int = if delta < 0 {
        0
    } else if delta <= ideal_lag_behind_finalized_slot {
        if delta < 1 { delta } else { 1 }
    } else {
        delta - ideal_lag_behind_finalized_slot
    };
    let capped: int = if to_use > 255 { 255 } else { to_use };
    if capped == 0 {
        Err(
            SequencerNotReadyDetails::WaitingOnDa {
                finalized_slot_number: latest_finalized_slot_number,
                needed_finalized_slot_number: (latest_finalized_slot_number + 1) as u64,
            },
        )
    } else if capped <= max_slots_to_advance {
        Ok(capped as u8)
    } else {
        Ok(max_slots_to_advance)
    }
}

/// See [`spec_next_visible_slot_number_increase`].
pub fn next_visible_slot_number_increase_inner(
    current_visible_slot_number: u64,
    latest_finalized_slot_number: u64,
    leave_space_for_next_batch: bool,
    ideal_lag_behind_finalized_slot: u64,
    max_slots_to_advance: u8,
) -> (r: Result<u8, SequencerNotReadyDetails>)
    requires
        max_slots_to_advance > 0,
        latest_finalized_slot_number < u64::MAX,
    ensures
        r == spec_next_visible_slot_number_increase(
            current_visible_slot_number,
            latest_finalized_slot_number,
            leave_space_for_next_batch,
            ideal_lag_behind_finalized_slot,
            max_slots_to_advance,
        ),
        r matches Ok(n) ==> 0 < n <= max_slots_to_advance,
{
    let mut delta: Option<u64> = if latest_finalized_slot_number >= current_visible_slot_number {
        Some(latest_finalized_slot_number - current_visible_slot_number)
    } else {
        None
    };
    if leave_space_for_next_batch {
        delta = match delta {
            Some(d) => if d >= 1 {
                Some(d - 1)
            } else {
                None
            },
            None => None,
        };
    }
    let to_use: u64 = match delta {
        None => 0,
        Some(d) => if d <= ideal_lag_behind_finalized_slot {
            if d < 1 {
                d
            } else {
                1
            }
        } else {
            d - ideal_lag_behind_finalized_slot
        },
    };
    let capped: u8 = if to_use > 255 {
        255
    } else {
        to_use as u8
    };
    if capped == 0 {
        Err(
            SequencerNotReadyDetails::WaitingOnDa {
                finalized_slot_number: latest_finalized_slot_number,
                needed_finalized_slot_number: latest_finalized_slot_number + 1,
            },
        )
    } else if capped <= max_slots_to_advance {
        Ok(capped)
    } else {
        Ok(max_slots_to_advance)
    }
}

/// How far one batch advances the visible slot number, in terms of the lag
/// `d` between the latest finalized slot and the visible one (less the slot
/// kept for the next batch): with no lag the sequencer waits for the DA to
/// finalize the next slot; a lag of one slot up to the ideal lag, included,
/// advances by exactly one slot; a larger lag advances by the excess over
/// the ideal lag, capped at 255 and at the rollup's limit.
pub proof fn lemma_visible_slot_increase_by_lag(
    current_visible_slot_number: u64,
    latest_finalized_slot_number: u64,
    leave_space_for_next_batch: bool,
    ideal_lag_behind_finalized_slot: u64,
    max_slots_to_advance: u8,
)
    requires
        max_slots_to_advance > 0,
    ensures
        ({
            let d: int = latest_finalized_slot_number - current_visible_slot_number - (if leave_space_for_next_batch {
                1int
            } else {
                0int
            });
            let r = spec_next_visible_slot_number_increase(
                current_visible_slot_number,
                latest_finalized_slot_number,
                leave_space_for_next_batch,
                ideal_lag_behind_finalized_slot,
                max_slots_to_advance,
            );
            &&& d < 1 ==> r == Err::<u8, SequencerNotReadyDetails>(
                SequencerNotReadyDetails::WaitingOnDa {
                    finalized_slot_number: latest_finalized_slot_number,
                    needed_finalized_slot_number: (latest_finalized_slot_number + 1) as u64,
                },
            )
            &&& 1 <= d <= ideal_lag_behind_finalized_slot ==> r == Ok::<u8, SequencerNotReadyDetails>(1u8)
            &&& d > ideal_lag_behind_finalized_slot ==> (r matches Ok(n) && n as int == {
                let excess = d - ideal_lag_behind_finalized_slot;
                let capped = if excess > 255 { 255 } else { excess };
                if capped < max_slots_to_advance { capped } else { max_slots_to_advance as int }
            })
        }),
{
}

/// `a / b`, rounded up.
pub open spec fn spec_div_ceil(a: u64, b: u64) -> int {
    (a + b - 1) / (b as int)
}

/// `a / b`, rounded up.
pub fn div_ceil(a: u64, b: u64) -> (r: u64)
    requires
        b > 0,
    ensures
        r == spec_div_ceil(a, b),
{
    let q = a / b;
    if a % b == 0 {
        assert(spec_div_ceil(a, b) == q) by (nonlinear_arith)
            requires
                b > 0,
                q == a / b,
                a % b == 0,
        ;
        q
    } else {
        assert(spec_div_ceil(a, b) == q + 1 && q + 1 <= u64::MAX) by (nonlinear_arith)
            requires
                b > 0,
                q == a / b,
                a % b != 0,
                a <= u64::MAX,
        ;
        q + 1
    }
}

/// How many slots the visible slot number may lag behind the DA before
/// soft confirmations risk being invalidated: one less than the deferred
/// slots count (the node always forces an increase at that count), less
/// the distance the node may lag behind the DA.
pub fn raw_max_deferred_slots_delay(deferred_slots_count: u64, max_allowed_node_distance_behind: u64) -> (r:
    u64)
    requires
        deferred_slots_count >= 1,
        deferred_slots_count - 1 >= max_allowed_node_distance_behind,
    ensures
        r == deferred_slots_count - 1 - max_allowed_node_distance_behind,
{
    deferred_slots_count - 1 - max_allowed_node_distance_behind
}

/// The range within which the lag is brought back when catching up:
/// 50% (the least for the recovery to count as done) and 40% (the target)
/// of the maximum delay.
pub fn slot_count_delta_acceptable_upper_bound_range(raw_max_delay: u64) -> (r: (u64, u64))
    requires
        raw_max_delay * 5 <= u64::MAX,
    ensures
        r.0 == raw_max_delay * 5 / 10,
        r.1 == raw_max_delay * 4 / 10,
{
    (raw_max_delay * 5 / 10, raw_max_delay * 4 / 10)
}

/// The lag beyond which the sequencer stops to recover: 90% of the maximum
/// delay, to leave room for state updates that don't come every slot.
pub fn slot_count_delta_acceptable_lower_bound(raw_max_delay: u64) -> (r: u64)
    requires
        raw_max_delay * 9 <= u64::MAX,
    ensures
        r == raw_max_delay * 9 / 10,
{
    raw_max_delay * 9 / 10
}

/// How many catch-up batches to send: the least for the recovery to count
/// as done, and the target. Each batch advances the visible slot number by
/// at most `increase_per_batch`.
pub fn catchup_batches_to_send(
    latest_finalized_slot_number: u64,
    current_visible_slot_number: u64,
    maximum_delta: u64,
    minimum_delta: u64,
    increase_per_batch: u64,
) -> (r: (u64, u64))
    requires
        increase_per_batch > 0,
    ensures
        ({
            let raw: int = if latest_finalized_slot_number >= current_visible_slot_number {
                latest_finalized_slot_number - current_visible_slot_number
            } else {
                0
            };
            let lo: int = if raw >= maximum_delta { raw - maximum_delta } else { 0 };
            let hi: int = if raw >= minimum_delta { raw - minimum_delta } else { 0 };
            &&& r.0 == spec_div_ceil(lo as u64, increase_per_batch)
            &&& r.1 == spec_div_ceil(hi as u64, increase_per_batch)
        }),
{
    let raw = latest_finalized_slot_number.saturating_sub(current_visible_slot_number);
    (
        div_ceil(raw.saturating_sub(maximum_delta), increase_per_batch),
        div_ceil(raw.saturating_sub(minimum_delta), increase_per_batch),
    )
}

/// The number of in-flight blobs, if it is above the allowed maximum.
pub fn blob_sender_busy(num_current_in_flight: usize, max_concurrent_blobs: usize) -> (r: Option<
    usize,
>)
    ensures
        r == (if num_current_in_flight > max_concurrent_blobs {
            Some(num_current_in_flight)
        } else {
            None
        }),
{
    if num_current_in_flight > max_concurrent_blobs {
        Some(num_current_in_flight)
    } else {
        None
    }
}

/// Whether the sequencer can accept transactions: not while the DA has not
/// finalized a slot past genesis, nor while too many blobs are in flight,
/// nor past the height it was told to stop at; otherwise its own readiness.
pub fn check_readiness(
    latest_finalized_slot_number: u64,
    nb_of_blobs_in_flight: usize,
    max_concurrent_blobs: usize,
    reported_max_concurrent_blobs: usize,
    height_to_stop_at: Option<u64>,
    current_height: u64,
    is_ready: &Result<(), SequencerNotReadyDetails>,
) -> (r: Result<(), SequencerNotReadyDetails>)
    ensures
        latest_finalized_slot_number == 0 ==> r == Err::<(), _>(
            SequencerNotReadyDetails::WaitingOnDa {
                finalized_slot_number: 0,
                needed_finalized_slot_number: 1,
            },
        ),
        latest_finalized_slot_number != 0 && nb_of_blobs_in_flight > max_concurrent_blobs ==> r
            == Err::<(), _>(
            SequencerNotReadyDetails::WaitingOnBlobSender {
                max_concurrent_blobs: reported_max_concurrent_blobs,
                nb_of_blobs_in_flight,
            },
        ),
        latest_finalized_slot_number != 0 && nb_of_blobs_in_flight <= max_concurrent_blobs && (
        height_to_stop_at matches Some(h) && current_height > h) ==> r == Err::<(), _>(
            SequencerNotReadyDetails::PreferredSequencerAtStopHeight {
                current_height,
                height_to_stop_at: height_to_stop_at->0,
            },
        ),
        latest_finalized_slot_number != 0 && nb_of_blobs_in_flight <= max_concurrent_blobs && !(
        height_to_stop_at matches Some(h) && current_height > h) ==> r == *is_ready,
{
    if latest_finalized_slot_number == 0 {
        return Err(
            SequencerNotReadyDetails::WaitingOnDa {
                finalized_slot_number: 0,
                needed_finalized_slot_number: 1,
            },
        );
    }
    if let Some(nb) = blob_sender_busy(nb_of_blobs_in_flight, max_concurrent_blobs) {
        return Err(
            SequencerNotReadyDetails::WaitingOnBlobSender {
                max_concurrent_blobs: reported_max_concurrent_blobs,
                nb_of_blobs_in_flight: nb,
            },
        );
    }
    if let Some(h) = height_to_stop_at {
        if current_height > h {
            return Err(
                SequencerNotReadyDetails::PreferredSequencerAtStopHeight {
                    current_height,
                    height_to_stop_at: h,
                },
            );
        }
    }
    *is_ready
}

/// Why no batch could be started.
#[derive(Debug)]
pub enum BatchCreationError {
    /// The blob sender is applying backpressure due to difficulty landing
    /// blobs on the DA.
    BlobSenderBusy,
    /// An internal database error occurred.
    DatabaseError(String),
    /// The sequencer has consumed its whole buffer of finalized slots.
    NoFinalizedSlotAvailable,
}

/// What to do when a batch is requested.
#[derive(Debug, PartialEq, Eq, Structural)]
pub enum BatchStart {
    /// A batch is already in progress; nothing to do.
    AlreadyInProgress,
    /// Start a batch that advances the visible slot number by
    /// `visible_increase`, to `visible_slot_number_after_increase`.
    Start { visible_increase: u8, visible_slot_number_after_increase: u64 },
}

/// Decides whether a new batch can be started, and with which visible slot
/// number: none while one is in progress; an error while the blob sender is
/// busy or no finalized slot is available.
pub fn try_to_start_batch_if_none_in_progress(
    has_in_progress_batch: bool,
    nb_of_blobs_in_flight: usize,
    max_concurrent_blobs: usize,
    current_visible_slot_number: u64,
    latest_finalized_slot_number: u64,
    leave_space_for_next_batch: bool,
    ideal_lag_behind_finalized_slot: u64,
    max_slots_to_advance: u8,
) -> (r: Result<BatchStart, BatchCreationError>)
    requires
        max_slots_to_advance > 0,
        latest_finalized_slot_number < u64::MAX,
    ensures
        has_in_progress_batch ==> r matches Ok(BatchStart::AlreadyInProgress),
        !has_in_progress_batch && nb_of_blobs_in_flight > max_concurrent_blobs ==> r matches Err(
            BatchCreationError::BlobSenderBusy,
        ),
        !has_in_progress_batch && nb_of_blobs_in_flight <= max_concurrent_blobs ==> match spec_next_visible_slot_number_increase(
            current_visible_slot_number,
            latest_finalized_slot_number,
            leave_space_for_next_batch,
            ideal_lag_behind_finalized_slot,
            max_slots_to_advance,
        ) {
            Err(_) => r matches Err(BatchCreationError::NoFinalizedSlotAvailable),
            Ok(n) => r matches Ok(BatchStart::Start { visible_increase, visible_slot_number_after_increase })
                && visible_increase == n && visible_slot_number_after_increase
                == current_visible_slot_number + n,
        },
{
    if has_in_progress_batch {
        return Ok(BatchStart::AlreadyInProgress);
    }
    if blob_sender_busy(nb_of_blobs_in_flight, max_concurrent_blobs).is_some() {
        return Err(BatchCreationError::BlobSenderBusy);
    }
    match next_visible_slot_number_increase_inner(
        current_visible_slot_number,
        latest_finalized_slot_number,
        leave_space_for_next_batch,
        ideal_lag_behind_finalized_slot,
        max_slots_to_advance,
    ) {
        Err(_) => Err(BatchCreationError::NoFinalizedSlotAvailable),
        Ok(n) => {
            assert(current_visible_slot_number + n <= latest_finalized_slot_number);
            Ok(
                BatchStart::Start {
                    visible_increase: n,
                    visible_slot_number_after_increase: current_visible_slot_number + n as u64,
                },
            )
        },
    }
}

/// How a transaction is refused when no batch could be started for it.
#[derive(Debug)]
pub enum AcceptTxRefusal {
    /// The sequencer is overloaded (it used up its buffer of finalized
    /// slots); try again in a few seconds.
    Overloaded,
    /// The sequencer is not ready, for the given reason.
    NotReady(SequencerNotReadyDetails),
    /// An internal database error, with its text.
    Database(String),
    /// The sequencer is shutting down.
    ShuttingDown,
    /// The transaction's hash could not be computed; the text says why.
    InvalidTx(String),
    /// The transaction could not be decoded.
    Undecodable,
    /// The transaction does not fit in the batch in progress.
    DoesNotFit,
}

/// The refusal of a transaction for which no batch could be started.
pub fn batch_creation_refusal(
    error: BatchCreationError,
    max_concurrent_blobs: usize,
    nb_of_blobs_in_flight: usize,
) -> (r: AcceptTxRefusal)
    ensures
        match error {
            BatchCreationError::NoFinalizedSlotAvailable => r is Overloaded,
            BatchCreationError::BlobSenderBusy => r == AcceptTxRefusal::NotReady(
                SequencerNotReadyDetails::WaitingOnBlobSender { max_concurrent_blobs, nb_of_blobs_in_flight },
            ),
            BatchCreationError::DatabaseError(e) => r matches AcceptTxRefusal::Database(m) && m@ == e@,
        },
{
    match error {
        BatchCreationError::NoFinalizedSlotAvailable => AcceptTxRefusal::Overloaded,
        BatchCreationError::BlobSenderBusy => AcceptTxRefusal::NotReady(
            SequencerNotReadyDetails::WaitingOnBlobSender { max_concurrent_blobs, nb_of_blobs_in_flight },
        ),
        BatchCreationError::DatabaseError(e) => AcceptTxRefusal::Database(e),
    }
}

/// The refusal a failed attempt to start a batch leads to.
pub open spec fn is_batch_creation_refusal(
    error: BatchCreationError,
    max_concurrent_blobs: usize,
    nb_of_blobs_in_flight: usize,
    r: AcceptTxRefusal,
) -> bool {
    match error {
        BatchCreationError::NoFinalizedSlotAvailable => r is Overloaded,
        BatchCreationError::BlobSenderBusy => r == AcceptTxRefusal::NotReady(
            SequencerNotReadyDetails::WaitingOnBlobSender { max_concurrent_blobs, nb_of_blobs_in_flight },
        ),
        BatchCreationError::DatabaseError(e) => r matches AcceptTxRefusal::Database(m) && m@ == e@,
    }
}

/// Whether a transaction passes the checks made before the sequencer's
/// lock is taken: the sequencer is not shutting down, the transaction's hash
/// can be computed and the transaction can be decoded.
pub open spec fn passes_early_checks(
    shutting_down: bool,
    tx_hash_error: Option<String>,
    decodable: bool,
) -> bool {
    !shutting_down && tx_hash_error is None && decodable
}

/// Whether a transaction that passed the early checks passes those made
/// under the lock, up to the start of a batch: it was not queued before a
/// downtime, the sequencer is ready, and a batch is in progress or could be
/// started.
pub open spec fn passes_batch_checks(
    queue_id_changed: bool,
    readiness: Result<(), SequencerNotReadyDetails>,
    batch_start: Result<BatchStart, BatchCreationError>,
) -> bool {
    !queue_id_changed && readiness is Ok && batch_start is Ok
}

/// Why a transaction is refused before it is applied to the batch in
/// progress, or `None` if it may be applied. The checks come in this order,
/// the first that fails deciding the refusal: the sequencer is shutting
/// down; the transaction's hash cannot be computed; it cannot be decoded; it
/// was queued before a downtime (the queue changed while it waited: the
/// sequencer is overloaded); the sequencer is not ready; no batch is in
/// progress and none could be started; the sequencer started shutting down
/// meanwhile; the transaction does not fit in the batch.
pub fn accept_tx_refusal(
    shutting_down: bool,
    tx_hash_error: Option<String>,
    decodable: bool,
    queue_id_changed: bool,
    readiness: Result<(), SequencerNotReadyDetails>,
    batch_start: Result<BatchStart, BatchCreationError>,
    max_concurrent_blobs: usize,
    nb_of_blobs_in_flight: usize,
    shutting_down_after_start: bool,
    fits: bool,
) -> (r: Option<AcceptTxRefusal>)
    ensures
        shutting_down ==> r matches Some(AcceptTxRefusal::ShuttingDown),
        !shutting_down && tx_hash_error is Some ==> (r matches Some(AcceptTxRefusal::InvalidTx(m))
            && m@ == tx_hash_error->0@),
        !shutting_down && tx_hash_error is None && !decodable ==> r matches Some(
            AcceptTxRefusal::Undecodable,
        ),
        passes_early_checks(shutting_down, tx_hash_error, decodable) && queue_id_changed ==> r matches Some(
            AcceptTxRefusal::Overloaded,
        ),
        passes_early_checks(shutting_down, tx_hash_error, decodable) && !queue_id_changed
            && readiness is Err ==> r == Some(AcceptTxRefusal::NotReady(readiness->Err_0)),
        passes_early_checks(shutting_down, tx_hash_error, decodable) && !queue_id_changed
            && readiness is Ok && batch_start is Err ==> (r matches Some(e)
            && is_batch_creation_refusal(batch_start->Err_0, max_concurrent_blobs, nb_of_blobs_in_flight, e)),
        passes_early_checks(shutting_down, tx_hash_error, decodable) && passes_batch_checks(
            queue_id_changed,
            readiness,
            batch_start,
        ) && shutting_down_after_start ==> r matches Some(AcceptTxRefusal::ShuttingDown),
        passes_early_checks(shutting_down, tx_hash_error, decodable) && passes_batch_checks(
            queue_id_changed,
            readiness,
            batch_start,
        ) && !shutting_down_after_start && !fits ==> r matches Some(AcceptTxRefusal::DoesNotFit),
        r is None <==> (passes_early_checks(shutting_down, tx_hash_error, decodable)
            && passes_batch_checks(queue_id_changed, readiness, batch_start)
            && !shutting_down_after_start && fits),
{
    if shutting_down {
        return Some(AcceptTxRefusal::ShuttingDown);
    }
    if let Some(e) = tx_hash_error {
        return Some(AcceptTxRefusal::InvalidTx(e));
    }
    if !decodable {
        return Some(AcceptTxRefusal::Undecodable);
    }
    if queue_id_changed {
        return Some(AcceptTxRefusal::Overloaded);
    }
    if let Err(details) = readiness {
        return Some(AcceptTxRefusal::NotReady(details));
    }
    if let Err(e) = batch_start {
        return Some(batch_creation_refusal(e, max_concurrent_blobs, nb_of_blobs_in_flight));
    }
    if shutting_down_after_start {
        return Some(AcceptTxRefusal::ShuttingDown);
    }
    if !fits {
        return Some(AcceptTxRefusal::DoesNotFit);
    }
    None
}

/// Whether it is worth producing a batch right after a state update: only
/// with automatic batch production, and only when the sequencer lags more
/// than the ideal amount behind the finalized slot, i.e. when the next batch
/// (leaving room for one more) would advance the visible slot number by more
/// than one slot.
pub fn is_batch_production_convenient(
    automatic_batch_production: bool,
    current_visible_slot_number: u64,
    latest_finalized_slot_number: u64,
    ideal_lag_behind_finalized_slot: u64,
    max_slots_to_advance: u8,
) -> (r: bool)
    requires
        max_slots_to_advance > 0,
        latest_finalized_slot_number < u64::MAX,
    ensures
        r == (automatic_batch_production && (spec_next_visible_slot_number_increase(
            current_visible_slot_number,
            latest_finalized_slot_number,
            true,
            ideal_lag_behind_finalized_slot,
            max_slots_to_advance,
        ) matches Ok(n) && n > 1)),
{
    if !automatic_batch_production {
        return false;
    }
    match next_visible_slot_number_increase_inner(
        current_visible_slot_number,
        latest_finalized_slot_number,
        true,
        ideal_lag_behind_finalized_slot,
        max_slots_to_advance,
    ) {
        Ok(n) => n > 1,
        Err(_) => false,
    }
}

/// Whether the batch in progress has been executing for longer than the
/// configured limit, so that it must be closed.
pub fn exceeds_batch_execution_time_limit(
    batch_execution_time_limit_millis: u64,
    current_batch_execution_time_micros: u64,
) -> (r: bool)
    requires
        batch_execution_time_limit_millis * 1000 <= u64::MAX,
    ensures
        r == (current_batch_execution_time_micros > batch_execution_time_limit_millis * 1000),
{
    current_batch_execution_time_micros > batch_execution_time_limit_millis * 1000
}

/// How the sequencer reacts to a state update from the node.
#[derive(Debug, PartialEq, Eq, Structural)]
pub enum StateUpdatePath {
    /// The node knows a later sequence number while the sequencer still has
    /// batches to replay: its database cannot be trusted anymore.
    InconsistentDatabase,
    /// The node saw a preferred batch the sequencer doesn't know of, close to
    /// the chain tip: resync to the tip.
    ResyncToTip,
    /// The node lags behind the DA: pause until it is close enough again.
    ResyncWithSlack,
    /// The visible slot number lags dangerously far behind: recover.
    Recover,
    /// The nominal case: replay the soft confirmations on top of the node's
    /// state.
    Replay,
}

/// Chooses how to react to a state update.
pub fn choose_state_update_path(
    nodes_sequence_number_is_fresher: bool,
    too_close_to_deferred_slots_count_for_comfort: bool,
    node_is_lagging: bool,
    are_there_known_batches_to_replay: bool,
) -> (r: StateUpdatePath)
    ensures
        r == (if nodes_sequence_number_is_fresher && are_there_known_batches_to_replay {
            StateUpdatePath::InconsistentDatabase
        } else if nodes_sequence_number_is_fresher && !node_is_lagging {
            StateUpdatePath::ResyncToTip
        } else if node_is_lagging {
            StateUpdatePath::ResyncWithSlack
        } else if too_close_to_deferred_slots_count_for_comfort {
            StateUpdatePath::Recover
        } else {
            StateUpdatePath::Replay
        }),
{
    match (
        nodes_sequence_number_is_fresher,
        too_close_to_deferred_slots_count_for_comfort,
        node_is_lagging,
        are_there_known_batches_to_replay,
    ) {
        (true, _, _, true) => StateUpdatePath::InconsistentDatabase,
        (true, _, false, false) => StateUpdatePath::ResyncToTip,
        (_, _, true, _) => StateUpdatePath::ResyncWithSlack,
        (false, true, false, _) => StateUpdatePath::Recover,
        (false, false, false, _) => StateUpdatePath::Replay,
    }
}

/// What the sequencer does when it must recover from lagging too far.
#[derive(Debug, Clone, Copy, PartialEq, Eq, Structural)]
pub enum RecoveryStrategy {
    /// Shut down rather than risk invalid soft confirmations.
    DoNotRecover,
    /// Flush the pending batches, hoping they are still valid.
    TryToSave,
}

/// The first step of a recovery.
#[derive(Debug, PartialEq, Eq, Structural)]
pub enum RecoveryAction {
    /// Flush every pending batch to the DA.
    FlushPendingBatches,
    /// Shut the rollup down.
    Shutdown,
    /// No soft confirmation is pending: just fast-forward.
    FastForward,
}

/// Decides the first step of a recovery.
pub fn recovery_action(has_batches_to_replay: bool, strategy: RecoveryStrategy) -> (r: RecoveryAction)
    ensures
        r == (if !has_batches_to_replay {
            RecoveryAction::FastForward
        } else if strategy == RecoveryStrategy::TryToSave {
            RecoveryAction::FlushPendingBatches
        } else {
            RecoveryAction::Shutdown
        }),
{
    if has_batches_to_replay {
        match strategy {
            RecoveryStrategy::TryToSave => RecoveryAction::FlushPendingBatches,
            RecoveryStrategy::DoNotRecover => RecoveryAction::Shutdown,
        }
    } else {
        RecoveryAction::FastForward
    }
}

/// Why a replica could not start the batch the master started.
#[derive(Debug, PartialEq, Eq, Structural)]
pub enum ReplicaBatchError {
    /// The master's visible slot number is not past the replica's.
    InvalidVisibleSlotProgression,
    /// The replica computes a different advance than the master.
    AdvanceMismatch { master: u8, replica: u8 },
}

/// The number of visible slots a replica advances to reach the master's
/// visible slot number, checked against the master's own number.
pub fn replica_visible_slots_to_advance(
    visible_slot_number_after_increase: u64,
    current_visible_slot_number: u64,
    master_visible_slots_to_advance: u8,
) -> (r: Result<u8, ReplicaBatchError>)
    requires
        visible_slot_number_after_increase <= current_visible_slot_number + 255,
    ensures
        visible_slot_number_after_increase <= current_visible_slot_number ==> r == Err::<
            u8,
            ReplicaBatchError,
        >(ReplicaBatchError::InvalidVisibleSlotProgression),
        visible_slot_number_after_increase > current_visible_slot_number ==> {
            let d = (visible_slot_number_after_increase - current_visible_slot_number) as u8;
            if d == master_visible_slots_to_advance {
                r == Ok::<u8, ReplicaBatchError>(d)
            } else {
                r == Err::<u8, ReplicaBatchError>(
                    ReplicaBatchError::AdvanceMismatch {
                        master: master_visible_slots_to_advance,
                        replica: d,
                    },
                )
            }
        },
{
    if visible_slot_number_after_increase <= current_visible_slot_number {
        return Err(ReplicaBatchError::InvalidVisibleSlotProgression);
    }
    let d = (visible_slot_number_after_increase - current_visible_slot_number) as u8;
    if d == master_visible_slots_to_advance {
        Ok(d)
    } else {
        Err(ReplicaBatchError::AdvanceMismatch { master: master_visible_slots_to_advance, replica: d })
    }
}

/// The sequence numbers the preferred sequencer hands out to its blobs.
#[derive(Debug)]
pub struct SequenceNumberAllocator {
    sequence_number_of_next_blob: u64,
}

impl SequenceNumberAllocator {
    /// The sequence number of the next blob.
    pub closed spec fn spec_next(&self) -> u64 {
        self.sequence_number_of_next_blob
    }

    /// Starts handing out sequence numbers from `sequence_number_of_next_blob`.
    pub fn new(sequence_number_of_next_blob: u64) -> (r: Self)
        ensures
            r.spec_next() == sequence_number_of_next_blob,
    {
        SequenceNumberAllocator { sequence_number_of_next_blob }
    }

    /// The sequence number of the next blob.
    pub fn next_sequence_number(&self) -> (r: u64)
        ensures
            r == self.spec_next(),
    {
        self.sequence_number_of_next_blob
    }

    /// The sequence number of the latest blob.
    pub fn current_sequence_number(&self) -> (r: u64)
        requires
            self.spec_next() > 0,
        ensures
            r == self.spec_next() - 1,
    {
        self.sequence_number_of_next_blob - 1
    }

    /// Hands out the next sequence number.
    pub fn get_and_inc_next_sequence_number(&mut self) -> (r: u64)
        requires
            old(self).spec_next() < u64::MAX,
        ensures
            r == old(self).spec_next(),
            final(self).spec_next() == r + 1,
    {
        let r = self.sequence_number_of_next_blob;
        self.sequence_number_of_next_blob = r + 1;
        r
    }

    /// Overwrites the sequence number of the next blob, e.g. during recovery.
    pub fn overwrite_next_sequence_number_for_recovery(&mut self, sequence_number: u64)
        ensures
            final(self).spec_next() == sequence_number,
    {
        self.sequence_number_of_next_blob = sequence_number;
    }
}

/// The sequence number of the latest blob finalized on the DA, given the
/// next one as of the latest finalized slot.
pub fn latest_finalized_sequence_number(next_sequence_number_as_of_finalized_slot: u64) -> (r: Option<u64>)
    ensures
        r == (if next_sequence_number_as_of_finalized_slot > 0 {
            Some((next_sequence_number_as_of_finalized_slot - 1) as u64)
        } else {
            None
        }),
{
    next_sequence_number_as_of_finalized_slot.checked_sub(1)
}

/// The sequence number up to which the database can be pruned: one hundred
/// below the latest finalized one, to stay clear of blobs still in use.
pub fn prune_target(latest_finalized_sequence_number: Option<u64>) -> (r: Option<u64>)
    ensures
        r == (match latest_finalized_sequence_number {
            Some(n) => if n >= 100 {
                Some((n - 100) as u64)
            } else {
                None
            },
            None => None,
        }),
{
    match latest_finalized_sequence_number {
        Some(n) => n.checked_sub(100),
        None => None,
    }
}

/// A batch is closed once its remaining gas falls to this fraction of the
/// initial gas limit, in every dimension.
pub const COMFORTABLE_GAS_LIMIT_MULTIPLIER: u64 = 19;

/// See [`COMFORTABLE_GAS_LIMIT_MULTIPLIER`].
pub const COMFORTABLE_GAS_LIMIT_DIVISOR: u64 = 20;

/// The gas limit below which a batch counts as nearly full, in each
/// dimension: the initial limit divided by 20, then multiplied by 19.
pub open spec fn comfortable_gas_limit(initial_gas_limit: Seq<u64>) -> Seq<int> {
    initial_gas_limit.map_values(|g: u64| (g / 20) * 19)
}

/// Whether the batch is close to the gas limit: in every dimension, the gas
/// left is at most the comfortable limit.
pub fn close_to_gas_limit(remaining_slot_gas: &Vec<u64>, initial_gas_limit: &Vec<u64>) -> (r: bool)
    requires
        remaining_slot_gas@.len() == initial_gas_limit@.len(),
    ensures
        r == forall|i: int|
            0 <= i < remaining_slot_gas@.len() ==> remaining_slot_gas@[i] <= #[trigger] comfortable_gas_limit(
                initial_gas_limit@,
            )[i],
{
    let mut i: usize = 0;
    while i < remaining_slot_gas.len()
        invariant
            0 <= i <= remaining_slot_gas@.len(),
            remaining_slot_gas@.len() == initial_gas_limit@.len(),
            forall|j: int|
                0 <= j < i ==> remaining_slot_gas@[j] <= #[trigger] comfortable_gas_limit(
                    initial_gas_limit@,
                )[j],
        decreases remaining_slot_gas@.len() - i,
    {
        let limit = initial_gas_limit[i] / COMFORTABLE_GAS_LIMIT_DIVISOR * COMFORTABLE_GAS_LIMIT_MULTIPLIER;
        assert(limit == comfortable_gas_limit(initial_gas_limit@)[i as int]);
        if remaining_slot_gas[i] > limit {
            return false;
        }
        i = i + 1;
    }
    true
}

/// The rollup height whose state root the next rollup block may see: the
/// one after the height being accessed, less the delay of state roots
/// (both saturating).
pub fn next_visible_root_height(rollup_height_to_access: u64, state_root_delay_blocks: u64) -> (r: u64)
    ensures
        ({
            let next: int = if rollup_height_to_access < u64::MAX {
                rollup_height_to_access + 1
            } else {
                u64::MAX as int
            };
            r == if next >= state_root_delay_blocks {
                next - state_root_delay_blocks
            } else {
                0
            }
        }),
{
    rollup_height_to_access.saturating_add(1).saturating_sub(state_root_delay_blocks)
}

/// Whether the state root of `next_visible_root_height` must be awaited from
/// the background task: it is above every height known (genesis when none
/// is).
pub fn needs_state_root(next_visible_root_height: u64, greatest_known_height: Option<u64>) -> (r: bool)
    ensures
        r == (next_visible_root_height > match greatest_known_height {
            Some(h) => h,
            None => 0,
        }),
{
    match greatest_known_height {
        Some(h) => next_visible_root_height > h,
        None => next_visible_root_height > 0,
    }
}

/// How far the preferred batch builder advances the visible slot number:
/// the distance from the visible slot to the latest finalized one (less one
/// when room is left for the next batch), capped at 255; none when that
/// distance is zero or negative.
pub fn batch_builder_visible_increase(
    visible_slot_number_to_access: u64,
    latest_finalized_slot_number: u64,
    leave_space_for_next_batch: bool,
) -> (r: Option<u8>)
    ensures
        ({
            let delta: int = latest_finalized_slot_number - visible_slot_number_to_access - if leave_space_for_next_batch {
                1int
            } else {
                0int
            };
            r == if delta <= 0 {
                None::<u8>
            } else if delta > 255 {
                Some(255u8)
            } else {
                Some(delta as u8)
            }
        }),
{
    if latest_finalized_slot_number < visible_slot_number_to_access {
        return None;
    }
    let mut delta = latest_finalized_slot_number - visible_slot_number_to_access;
    if leave_space_for_next_batch {
        if delta == 0 {
            return None;
        }
        delta = delta - 1;
    }
    if delta == 0 {
        None
    } else if delta > 255 {
        Some(255)
    } else {
        Some(delta as u8)
    }
}

} // verus!
