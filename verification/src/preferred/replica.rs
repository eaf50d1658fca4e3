//! The decisions of a replica sequencer that follows the leader through a
//! shared database, and takes over when the leader falls silent.
use vstd::prelude::*;

use crate::preferred::db::DbEvent;
use crate::preferred::notifications::{
    events_payload_of, EventType, EventsNotificationPayload, LeaderNotificationPayload,
    PayloadParseError, PayloadParseErrorView,
};
use crate::types::SequencerNotReadyDetails;

verus! {

/// The most events read from the database in one backfill query.
pub const BACKFILL_PAGE_SIZE: u64 = 2000;

/// The role of this sequencer. A node that won the leadership passes through
/// `TransitioningToMaster` while it finishes the events the old leader wrote.
#[derive(Debug, Clone, Copy, PartialEq, Eq, Structural)]
pub enum ReplicaState {
    Replica,
    TransitioningToMaster,
    Master,
}

/// The first event id that was missed, when `current_event_id` does not
/// follow the last event received (`None`: nothing received yet; ids start
/// at 1).
pub fn detect_gap(latest_received_event_id: Option<u64>, current_event_id: u64) -> (r: Option<u64>)
    requires
        latest_received_event_id matches Some(last_id) ==> last_id < u64::MAX,
    ensures
        match latest_received_event_id {
            Some(last_id) => if current_event_id > last_id + 1 {
                r == Some((last_id + 1) as u64)
            } else {
                r is None
            },
            None => if current_event_id > 1 {
                r == Some(1u64)
            } else {
                r is None
            },
        },
{
    match latest_received_event_id {
        Some(last_id) => if current_event_id > last_id + 1 {
            Some(last_id + 1)
        } else {
            None
        },
        None => if current_event_id > 1 {
            Some(1)
        } else {
            None
        },
    }
}

/// The events to read before an event notification can be handled: those
/// strictly between the last event received and the notified one.
#[derive(Debug, Clone, Copy, PartialEq, Eq, Structural)]
pub struct Backfill {
    pub latest_received_event_id: Option<u64>,
    pub target_event_id: u64,
}

/// Reads an events notification, and says whether events were missed before
/// it. The notified event becomes the last event received.
pub fn create_event_futures_from_notification(
    latest_received_event_id: &mut Option<u64>,
    payload: &str,
) -> (r: Result<(Option<Backfill>, EventsNotificationPayload), PayloadParseError>)
    requires
        *old(latest_received_event_id) matches Some(last_id) ==> last_id < u64::MAX,
    ensures
        match events_payload_of(payload@) {
            Ok(p) => {
                &&& r matches Ok((backfill, q)) && q == p && (backfill == if (match *old(
                    latest_received_event_id,
                ) {
                    Some(last_id) => p.event_id > last_id + 1,
                    None => p.event_id > 1,
                }) {
                    Some(
                        Backfill {
                            latest_received_event_id: *old(latest_received_event_id),
                            target_event_id: p.event_id,
                        },
                    )
                } else {
                    None::<Backfill>
                })
                &&& *final(latest_received_event_id) == Some(p.event_id)
            },
            Err(e) => {
                &&& r matches Err(err) && err@ == e
                &&& *final(latest_received_event_id) == *old(latest_received_event_id)
            },
        },
{
    let parsed = match EventsNotificationPayload::parse_csv(payload) {
        Ok(p) => p,
        Err(e) => {
            return Err(e);
        },
    };
    let latest = *latest_received_event_id;
    let backfill = if detect_gap(latest, parsed.event_id).is_some() {
        Some(Backfill { latest_received_event_id: latest, target_event_id: parsed.event_id })
    } else {
        None
    };
    *latest_received_event_id = Some(parsed.event_id);
    Ok((backfill, parsed))
}

/// What must be read from the database to turn a notified event into a
/// database event.
#[derive(Debug)]
pub enum EventFetch {
    /// The hash and body of the transaction at this place in the batch.
    TxBody { sequence_number: u64, index_in_batch: u64 },
    /// The stored batch, for its visible slot parameters.
    BatchMetadata { sequence_number: u64 },
    /// Nothing: the event is complete.
    Ready(DbEvent),
}

/// What to read for a notified event. A transaction event carries its index
/// in the batch.
pub fn create_event_future(notification: EventsNotificationPayload) -> (r: EventFetch)
    requires
        notification.event_type == EventType::Transaction ==> notification.index_in_batch is Some,
    ensures
        match notification.event_type {
            EventType::Transaction => r == EventFetch::TxBody {
                sequence_number: notification.sequence_number,
                index_in_batch: notification.index_in_batch->0,
            },
            EventType::BatchStart => r == EventFetch::BatchMetadata {
                sequence_number: notification.sequence_number,
            },
            EventType::BatchEnd => r matches EventFetch::Ready(e) && e@
                == crate::preferred::db::DbEventView::BatchClosed(notification.sequence_number),
            EventType::NewProof => r matches EventFetch::Ready(e) && e@
                == crate::preferred::db::DbEventView::ProofBlobAccepted(
                notification.sequence_number,
            ),
        },
{
    match notification.event_type {
        EventType::Transaction => EventFetch::TxBody {
            sequence_number: notification.sequence_number,
            index_in_batch: notification.index_in_batch.unwrap(),
        },
        EventType::BatchStart => EventFetch::BatchMetadata {
            sequence_number: notification.sequence_number,
        },
        EventType::BatchEnd => EventFetch::Ready(DbEvent::BatchClosed(notification.sequence_number)),
        EventType::NewProof => EventFetch::Ready(
            DbEvent::ProofBlobAccepted(notification.sequence_number),
        ),
    }
}

/// The pages `[start, end)` of event ids that cover `[start, target)`, each
/// of at most `BACKFILL_PAGE_SIZE` ids.
pub open spec fn backfill_pages_from(start: int, target: int) -> Seq<(u64, u64)>
    decreases target - start,
{
    if start >= target {
        Seq::empty()
    } else {
        let end = if start + BACKFILL_PAGE_SIZE < target {
            start + BACKFILL_PAGE_SIZE
        } else {
            target
        };
        seq![(start as u64, end as u64)] + backfill_pages_from(end, target)
    }
}

/// The backfill pages cover `[start, target)` exactly, in order and without
/// overlap: each page starts where the previous one ended and holds at most
/// `BACKFILL_PAGE_SIZE` event ids; the first starts at `start`, the last
/// ends at `target`.
pub proof fn lemma_backfill_pages_cover(start: int, target: int)
    requires
        0 <= start,
        target <= u64::MAX,
    ensures
        ({
            let pages = backfill_pages_from(start, target);
            &&& start >= target <==> pages.len() == 0
            &&& pages.len() > 0 ==> pages[0].0 == start && pages.last().1 == target
            &&& forall|k: int|
                0 <= k < pages.len() ==> (#[trigger] pages[k]).0 < pages[k].1 <= pages[k].0
                    + BACKFILL_PAGE_SIZE
            &&& forall|k: int| 0 <= k < pages.len() - 1 ==> (#[trigger] pages[k]).1 == pages[k + 1].0
        }),
    decreases target - start,
{
    if start < target {
        let end = if start + BACKFILL_PAGE_SIZE < target {
            start + BACKFILL_PAGE_SIZE
        } else {
            target
        };
        lemma_backfill_pages_cover(end, target);
        let rest = backfill_pages_from(end, target);
        let pages = backfill_pages_from(start, target);
        assert(pages == seq![(start as u64, end as u64)] + rest);
        assert forall|k: int| 0 <= k < pages.len() implies (#[trigger] pages[k]).0 < pages[k].1
            <= pages[k].0 + BACKFILL_PAGE_SIZE by {
            if k > 0 {
                assert(pages[k] == rest[k - 1]);
            }
        }
        assert forall|k: int| 0 <= k < pages.len() - 1 implies (#[trigger] pages[k]).1 == pages[k
            + 1].0 by {
            assert(pages[k + 1] == rest[k]);
            if k > 0 {
                assert(pages[k] == rest[k - 1]);
            }
        }
        if rest.len() > 0 {
            assert(pages.last() == rest.last());
        }
    }
}

/// The first event id a backfill reads: the one after the last received, or
/// 0 when none was.
pub open spec fn backfill_start(latest_received_event_id: Option<u64>) -> int {
    match latest_received_event_id {
        Some(id) => id + 1,
        None => 0,
    }
}

/// No page of the backfill starts so late that adding a page size to its
/// start overflows a `u64`.
pub open spec fn backfill_fits(start: int, target: int) -> bool {
    let pages = backfill_pages_from(start, target);
    pages.len() > 0 ==> pages.last().0 + BACKFILL_PAGE_SIZE <= u64::MAX
}

/// The first page of a backfill starts no later than its last one.
proof fn lemma_first_page_start_le_last(start: int, target: int)
    requires
        0 <= start < target <= u64::MAX,
    ensures
        backfill_pages_from(start, target).len() > 0,
        backfill_pages_from(start, target)[0].0 == start,
        start <= backfill_pages_from(start, target).last().0,
    decreases target - start,
{
    let end = if start + BACKFILL_PAGE_SIZE < target {
        start + BACKFILL_PAGE_SIZE
    } else {
        target
    };
    let rest = backfill_pages_from(end, target);
    let pages = backfill_pages_from(start, target);
    assert(pages == seq![(start as u64, end as u64)] + rest);
    if end < target {
        lemma_first_page_start_le_last(end, target);
        assert(pages.last() == rest.last());
    } else {
        assert(rest.len() == 0);
    }
}

/// The pages of event ids to read to fill the gap before `target_event_id`.
pub fn backfill_pages(latest_received_event_id: Option<u64>, target_event_id: u64) -> (r: Vec<
    (u64, u64),
>)
    requires
        latest_received_event_id matches Some(id) ==> id < u64::MAX,
        backfill_fits(backfill_start(latest_received_event_id), target_event_id as int),
    ensures
        r@ == backfill_pages_from(backfill_start(latest_received_event_id), target_event_id as int),
{
    let mut current: u64 = match latest_received_event_id {
        Some(id) => id + 1,
        None => 0,
    };
    let mut pages: Vec<(u64, u64)> = Vec::new();
    if current > target_event_id {
        return pages;
    }
    while current < target_event_id
        invariant
            current <= target_event_id,
            backfill_fits(backfill_start(latest_received_event_id), target_event_id as int),
            pages@ + backfill_pages_from(current as int, target_event_id as int)
                == backfill_pages_from(
                backfill_start(latest_received_event_id),
                target_event_id as int,
            ),
        decreases target_event_id - current,
    {
        proof {
            let all = backfill_pages_from(backfill_start(latest_received_event_id), target_event_id as int);
            let suffix = backfill_pages_from(current as int, target_event_id as int);
            lemma_first_page_start_le_last(current as int, target_event_id as int);
            assert(all.last() == suffix.last());
        }
        let page_end = if current + BACKFILL_PAGE_SIZE < target_event_id {
            current + BACKFILL_PAGE_SIZE
        } else {
            target_event_id
        };
        let ghost rest = backfill_pages_from(page_end as int, target_event_id as int);
        assert(backfill_pages_from(current as int, target_event_id as int) == seq![
            (current, page_end),
        ] + rest);
        assert(pages@.push((current, page_end)) + rest =~= pages@ + (seq![(current, page_end)]
            + rest));
        pages.push((current, page_end));
        current = page_end;
    }
    assert(backfill_pages_from(current as int, target_event_id as int) =~= Seq::empty());
    assert(pages@ + Seq::<(u64, u64)>::empty() =~= pages@);
    pages
}

/// What to do on a notification that the leader changed.
#[derive(Debug, Clone, Copy, PartialEq, Eq, Structural)]
pub enum LeaderChangeAction {
    /// Nothing changes.
    Nothing,
    /// This node leads now: start the transition to master.
    StartTransitionToMaster,
    /// Another node leads: record its heartbeat and stay a replica.
    RecordHeartbeat,
    /// Another node leads: step down to replica and record its heartbeat.
    TransitionToReplicaAndRecordHeartbeat,
}

/// Reacts to a leader notification, given whether it could be read and, if
/// so, whether the new leader is this node. An unreadable notification is
/// ignored, so that a bad row written by hand cannot stop every node.
pub fn handle_leader_change_notification(
    state: ReplicaState,
    leader: &Result<LeaderNotificationPayload, PayloadParseError>,
    own_node_id: u128,
) -> (r: LeaderChangeAction)
    ensures
        match leader {
            Err(_) => r == LeaderChangeAction::Nothing,
            Ok(info) => if info.node_id == own_node_id {
                if state == ReplicaState::Replica {
                    r == LeaderChangeAction::StartTransitionToMaster
                } else {
                    r == LeaderChangeAction::Nothing
                }
            } else if state == ReplicaState::Replica {
                r == LeaderChangeAction::RecordHeartbeat
            } else {
                r == LeaderChangeAction::TransitionToReplicaAndRecordHeartbeat
            },
        },
{
    match leader {
        Err(_) => LeaderChangeAction::Nothing,
        Ok(info) => {
            if info.node_id == own_node_id {
                if state == ReplicaState::Replica {
                    LeaderChangeAction::StartTransitionToMaster
                } else {
                    LeaderChangeAction::Nothing
                }
            } else if state == ReplicaState::Replica {
                LeaderChangeAction::RecordHeartbeat
            } else {
                LeaderChangeAction::TransitionToReplicaAndRecordHeartbeat
            }
        },
    }
}

/// What the result of a heartbeat says.
#[derive(Debug, Clone, Copy, PartialEq, Eq, Structural)]
pub enum HeartbeatOutcome {
    /// This node still leads.
    Confirmed,
    /// Another node took over: step down to replica.
    Demoted,
    /// The database answered something impossible: shut down.
    Inconsistent,
}

/// Reads the answer to a heartbeat: the rows it updated and the leader the
/// table names.
pub fn heartbeat_outcome(rows_affected: u64, current_node_id: Option<u128>, own_node_id: u128) -> (r:
    HeartbeatOutcome)
    ensures
        r == if rows_affected == 1 && current_node_id == Some(own_node_id) {
            HeartbeatOutcome::Confirmed
        } else if rows_affected == 0 && current_node_id is Some && current_node_id != Some(
            own_node_id,
        ) {
            HeartbeatOutcome::Demoted
        } else {
            HeartbeatOutcome::Inconsistent
        },
{
    match current_node_id {
        Some(id) => {
            if rows_affected == 1 && id == own_node_id {
                HeartbeatOutcome::Confirmed
            } else if rows_affected == 0 && id != own_node_id {
                HeartbeatOutcome::Demoted
            } else {
                HeartbeatOutcome::Inconsistent
            }
        },
        None => HeartbeatOutcome::Inconsistent,
    }
}

/// Whether a replica should try to take over: it must be ready (or only
/// held back by being a replica), and the leader's last heartbeat must be
/// older than the failover threshold.
pub fn should_attempt_takeover(
    is_ready: &Result<(), SequencerNotReadyDetails>,
    time_since_last_heartbeat: u128,
    failover_threshold: u128,
) -> (r: bool)
    ensures
        r == ((is_ready matches Err(e) ==> e == SequencerNotReadyDetails::ReplicaMode)
            && time_since_last_heartbeat > failover_threshold),
{
    match is_ready {
        Err(e) => {
            if *e != SequencerNotReadyDetails::ReplicaMode {
                return false;
            }
        },
        Ok(_) => {},
    }
    time_since_last_heartbeat > failover_threshold
}

/// Why an event notification cannot be handled.
#[derive(Debug)]
pub enum ReplicaSyncError {
    /// No other sequencer may write to the database once this one took over.
    EventWhileTransitioningToMaster,
    /// The payload could not be read.
    Payload(PayloadParseError),
}

/// Refuses database events while this node is taking over.
pub fn check_event_notification_allowed(state: ReplicaState) -> (r: Result<(), ReplicaSyncError>)
    ensures
        r is Ok <==> state != ReplicaState::TransitioningToMaster,
        r matches Err(e) ==> e is EventWhileTransitioningToMaster,
{
    if state == ReplicaState::TransitioningToMaster {
        Err(ReplicaSyncError::EventWhileTransitioningToMaster)
    } else {
        Ok(())
    }
}

/// Whether the transition to master can be completed: all events the old
/// leader wrote have been processed.
pub fn can_complete_transition_to_master(state: ReplicaState, pending_events: usize) -> (r: bool)
    ensures
        r == (state == ReplicaState::TransitioningToMaster && pending_events == 0),
{
    state == ReplicaState::TransitioningToMaster && pending_events == 0
}

/// Whether a buffered leader notification, read while starting the
/// transition to master, aborts it: another node leads.
pub fn aborts_transition(
    leader: &Result<LeaderNotificationPayload, PayloadParseError>,
    own_node_id: u128,
) -> (r: bool)
    ensures
        r == (leader matches Ok(info) && info.node_id != own_node_id),
{
    match leader {
        Ok(info) => info.node_id != own_node_id,
        Err(_) => false,
    }
}

} // verus!
