//! The bookkeeping of replaying soft-confirmed batches on top of the node's
//! state: what each database event asks of the executor, and the counts
//! reported once the replay is over.
use vstd::prelude::*;

use crate::preferred::db::{DbEvent, DbEventView, SequenceNumber};

verus! {

/// What the executor must do for a replayed database event.
#[derive(Debug, Clone, Copy, PartialEq, Eq, Structural)]
pub enum ReplayStep {
    /// Replay the accepted transaction.
    ReplayTx,
    /// End the rollup block of the closed batch.
    EndRollupBlock,
    /// Start a rollup block for the started batch.
    StartRollupBlock { visible_slot_number_after_increase: u64, visible_slots_to_advance: u8 },
    /// Nothing: proof blobs are not replayed.
    Nothing,
}

/// The counts of a replay so far.
#[derive(Debug, Clone, Copy, PartialEq, Eq, Structural)]
pub struct ReplayTally {
    pub batches_count: u64,
    pub transactions_count: u64,
    /// Whether the last batch replayed is still in progress.
    pub batch_is_in_progress: bool,
    /// The sequence number following the last complete batch replayed.
    pub next_sequence_number: SequenceNumber,
}

/// The step an event asks for.
pub open spec fn replay_step_of(e: DbEventView) -> ReplayStep {
    match e {
        DbEventView::TxAccepted(_, _) => ReplayStep::ReplayTx,
        DbEventView::BatchClosed(_) => ReplayStep::EndRollupBlock,
        DbEventView::BatchStarted { visible_slot_number_after_increase, visible_slots_to_advance, .. } =>
            ReplayStep::StartRollupBlock {
            visible_slot_number_after_increase,
            visible_slots_to_advance,
        },
        DbEventView::ProofBlobAccepted(_) => ReplayStep::Nothing,
    }
}

/// The counts once an event was replayed.
pub open spec fn tally_after_event(t: ReplayTally, e: DbEventView) -> ReplayTally {
    match e {
        DbEventView::TxAccepted(_, _) => ReplayTally {
            transactions_count: (t.transactions_count + 1) as u64,
            batch_is_in_progress: true,
            ..t
        },
        DbEventView::BatchClosed(_) => ReplayTally { batch_is_in_progress: false, ..t },
        DbEventView::BatchStarted { .. } => ReplayTally {
            batches_count: (t.batches_count + 1) as u64,
            batch_is_in_progress: true,
            ..t
        },
        DbEventView::ProofBlobAccepted(_) => t,
    }
}

/// The counts once the events were replayed, in order.
pub open spec fn tally_after_events(t: ReplayTally, es: Seq<DbEventView>) -> ReplayTally
    decreases es.len(),
{
    if es.len() == 0 {
        t
    } else {
        tally_after_event(tally_after_events(t, es.drop_last()), es.last())
    }
}

/// The number of events that accept a transaction.
pub open spec fn accepted_txs(es: Seq<DbEventView>) -> nat
    decreases es.len(),
{
    if es.len() == 0 {
        0
    } else {
        accepted_txs(es.drop_last()) + if es.last() is TxAccepted {
            1nat
        } else {
            0nat
        }
    }
}

/// The number of events that start a batch.
pub open spec fn started_batches(es: Seq<DbEventView>) -> nat
    decreases es.len(),
{
    if es.len() == 0 {
        0
    } else {
        started_batches(es.drop_last()) + if es.last() is BatchStarted {
            1nat
        } else {
            0nat
        }
    }
}

impl ReplayTally {
    /// Nothing replayed yet; complete batches start at `next_sequence_number`.
    pub fn new(next_sequence_number: SequenceNumber) -> (r: Self)
        ensures
            r == (ReplayTally {
                batches_count: 0,
                transactions_count: 0,
                batch_is_in_progress: false,
                next_sequence_number,
            }),
    {
        ReplayTally {
            batches_count: 0,
            transactions_count: 0,
            batch_is_in_progress: false,
            next_sequence_number,
        }
    }

    /// Counts a complete batch of `tx_count` transactions with the given
    /// sequence number; the next one follows it (saturating at the largest
    /// sequence number).
    pub fn record_completed_batch(&mut self, sequence_number: SequenceNumber, tx_count: usize)
        requires
            old(self).batches_count < u64::MAX,
            old(self).transactions_count + tx_count <= u64::MAX,
        ensures
            *final(self) == (ReplayTally {
                batches_count: (old(self).batches_count + 1) as u64,
                transactions_count: (old(self).transactions_count + tx_count) as u64,
                next_sequence_number: if sequence_number < u64::MAX {
                    (sequence_number + 1) as u64
                } else {
                    u64::MAX
                },
                ..*old(self)
            }),
    {
        self.batches_count = self.batches_count + 1;
        self.transactions_count = self.transactions_count + tx_count as u64;
        self.next_sequence_number = sequence_number.saturating_add(1);
    }

    /// Counts the batch in progress, of `tx_count` transactions so far.
    pub fn record_in_progress_batch(&mut self, tx_count: usize)
        requires
            old(self).batches_count < u64::MAX,
            old(self).transactions_count + tx_count <= u64::MAX,
        ensures
            *final(self) == (ReplayTally {
                batches_count: (old(self).batches_count + 1) as u64,
                transactions_count: (old(self).transactions_count + tx_count) as u64,
                batch_is_in_progress: true,
                ..*old(self)
            }),
    {
        self.batches_count = self.batches_count + 1;
        self.transactions_count = self.transactions_count + tx_count as u64;
        self.batch_is_in_progress = true;
    }

    /// Counts a database event and says what the executor must do for it.
    pub fn do_next_event(&mut self, event: &DbEvent) -> (r: ReplayStep)
        requires
            old(self).batches_count < u64::MAX,
            old(self).transactions_count < u64::MAX,
        ensures
            r == replay_step_of(event@),
            *final(self) == tally_after_event(*old(self), event@),
    {
        match event {
            DbEvent::TxAccepted(_, _) => {
                self.transactions_count = self.transactions_count + 1;
                self.batch_is_in_progress = true;
                ReplayStep::ReplayTx
            },
            DbEvent::BatchClosed(_) => {
                self.batch_is_in_progress = false;
                ReplayStep::EndRollupBlock
            },
            DbEvent::BatchStarted {
                visible_slot_number_after_increase,
                visible_slots_to_advance,
                ..
            } => {
                self.batches_count = self.batches_count + 1;
                self.batch_is_in_progress = true;
                ReplayStep::StartRollupBlock {
                    visible_slot_number_after_increase: *visible_slot_number_after_increase,
                    visible_slots_to_advance: *visible_slots_to_advance,
                }
            },
            DbEvent::ProofBlobAccepted(_) => ReplayStep::Nothing,
        }
    }
}

/// Replaying events counts every accepted transaction and every started
/// batch, and leaves the last touched batch in progress unless it was
/// closed; proof blobs change nothing.
pub proof fn lemma_tally_counts_events(t: ReplayTally, es: Seq<DbEventView>)
    requires
        t.transactions_count + es.len() <= u64::MAX,
        t.batches_count + es.len() <= u64::MAX,
    ensures
        tally_after_events(t, es).transactions_count == t.transactions_count + accepted_txs(es),
        tally_after_events(t, es).batches_count == t.batches_count + started_batches(es),
        tally_after_events(t, es).next_sequence_number == t.next_sequence_number,
    decreases es.len(),
{
    if es.len() > 0 {
        lemma_tally_counts_events(t, es.drop_last());
        lemma_counts_bounded(es.drop_last());
    }
}

/// At most one of each kind per event.
proof fn lemma_counts_bounded(es: Seq<DbEventView>)
    ensures
        accepted_txs(es) <= es.len(),
        started_batches(es) <= es.len(),
    decreases es.len(),
{
    if es.len() > 0 {
        lemma_counts_bounded(es.drop_last());
    }
}

/// The counts once the complete batches `bs`, each a sequence number and a
/// number of transactions, were replayed in order.
pub open spec fn tally_after_completed(t: ReplayTally, bs: Seq<(SequenceNumber, usize)>) -> ReplayTally
    decreases bs.len(),
{
    if bs.len() == 0 {
        t
    } else {
        let u = tally_after_completed(t, bs.drop_last());
        let (sn, n) = bs.last();
        ReplayTally {
            batches_count: (u.batches_count + 1) as u64,
            transactions_count: (u.transactions_count + n) as u64,
            next_sequence_number: if sn < u64::MAX {
                (sn + 1) as u64
            } else {
                u64::MAX
            },
            ..u
        }
    }
}

/// The number of transactions of the complete batches `bs`.
pub open spec fn completed_txs(bs: Seq<(SequenceNumber, usize)>) -> nat
    decreases bs.len(),
{
    if bs.len() == 0 {
        0
    } else {
        completed_txs(bs.drop_last()) + (bs.last().1 as nat)
    }
}

/// Replaying complete batches counts each of them and its transactions.
proof fn lemma_tally_after_completed(t: ReplayTally, bs: Seq<(SequenceNumber, usize)>)
    requires
        t.batches_count + bs.len() <= u64::MAX,
        t.transactions_count + completed_txs(bs) <= u64::MAX,
    ensures
        tally_after_completed(t, bs).batches_count == t.batches_count + bs.len(),
        tally_after_completed(t, bs).transactions_count == t.transactions_count + completed_txs(bs),
        tally_after_completed(t, bs).batch_is_in_progress == t.batch_is_in_progress,
    decreases bs.len(),
{
    if bs.len() > 0 {
        lemma_tally_after_completed(t, bs.drop_last());
    }
}

/// Where a replay stands.
#[derive(Debug, Clone, Copy, PartialEq, Eq, Structural)]
pub enum ReplayPhase {
    /// Replaying the complete batches the node has not seen, fetching them
    /// again until none is left.
    CatchingUp,
    /// Subscribed to the database's events; waiting for the batch in
    /// progress.
    AwaitingInProgress,
    /// Replaying the events that came in meanwhile, without the lock, while
    /// more than one is pending.
    Draining,
    /// Replaying the last events, under the lock.
    FinalDrain,
    /// Over: the executor was swapped in, or the replay was abandoned.
    Finished,
}

/// What the replay learns next.
#[derive(Debug)]
pub enum ReplayInput {
    /// The complete batches fetched from the store from the next sequence
    /// number on, each with its sequence number and transaction count.
    Fetched(Vec<(SequenceNumber, usize)>),
    /// The batch in progress, with its transaction count, if there is one.
    InProgress(Option<usize>),
    /// How many events are pending in the subscription.
    Pending(usize),
    /// The next event received.
    Event(DbEvent),
    /// No event is left to receive.
    NoEvent,
    /// The sequencer is shutting down.
    ShuttingDown,
}

/// The abstract form of a [`ReplayInput`].
pub enum ReplayInputView {
    Fetched(Seq<(SequenceNumber, usize)>),
    InProgress(Option<usize>),
    Pending(usize),
    Event(DbEventView),
    NoEvent,
    ShuttingDown,
}

impl View for ReplayInput {
    type V = ReplayInputView;

    open spec fn view(&self) -> ReplayInputView {
        match self {
            ReplayInput::Fetched(bs) => ReplayInputView::Fetched(bs@),
            ReplayInput::InProgress(n) => ReplayInputView::InProgress(*n),
            ReplayInput::Pending(n) => ReplayInputView::Pending(*n),
            ReplayInput::Event(e) => ReplayInputView::Event(e@),
            ReplayInput::NoEvent => ReplayInputView::NoEvent,
            ReplayInput::ShuttingDown => ReplayInputView::ShuttingDown,
        }
    }
}

/// What the replay asks of its caller.
#[derive(Debug, Clone, Copy, PartialEq, Eq, Structural)]
pub enum ReplayAction {
    /// Replay the fetched complete batches, in order, then fetch again.
    ReplayCompleted,
    /// Subscribe to the database's events and fetch the batch in progress.
    SubscribeAndFetchInProgress,
    /// Replay the batch in progress.
    ReplayInProgress,
    /// There is no batch in progress to replay.
    NoBatchInProgress,
    /// Receive the next pending event.
    ReceiveEvent,
    /// Have the executor take this step for the event received.
    Replay(ReplayStep),
    /// Take the sequencer's lock and replay the events left.
    LockForFinalDrain,
    /// Swap the caught-up executor in: the replay is over.
    Finish,
    /// Stop: the sequencer is shutting down.
    Abort,
    /// The input is not one this phase expects; nothing changes.
    Ignore,
}

/// A replay: its phase and its counts.
#[derive(Debug, Clone, Copy, PartialEq, Eq, Structural)]
pub struct ReplayMachine {
    pub phase: ReplayPhase,
    pub tally: ReplayTally,
}

/// The replay after `input`, and what it asks of its caller.
pub open spec fn replay_transition(m: ReplayMachine, input: ReplayInputView) -> (ReplayMachine, ReplayAction) {
    match input {
        ReplayInputView::ShuttingDown => if m.phase == ReplayPhase::Finished {
            (m, ReplayAction::Ignore)
        } else {
            (ReplayMachine { phase: ReplayPhase::Finished, ..m }, ReplayAction::Abort)
        },
        ReplayInputView::Fetched(bs) => if m.phase != ReplayPhase::CatchingUp {
            (m, ReplayAction::Ignore)
        } else if bs.len() == 0 {
            (
                ReplayMachine { phase: ReplayPhase::AwaitingInProgress, ..m },
                ReplayAction::SubscribeAndFetchInProgress,
            )
        } else {
            (
                ReplayMachine { tally: tally_after_completed(m.tally, bs), ..m },
                ReplayAction::ReplayCompleted,
            )
        },
        ReplayInputView::InProgress(b) => if m.phase != ReplayPhase::AwaitingInProgress {
            (m, ReplayAction::Ignore)
        } else {
            match b {
                Some(n) => (
                    ReplayMachine {
                        phase: ReplayPhase::Draining,
                        tally: ReplayTally {
                            batches_count: (m.tally.batches_count + 1) as u64,
                            transactions_count: (m.tally.transactions_count + n) as u64,
                            batch_is_in_progress: true,
                            ..m.tally
                        },
                    },
                    ReplayAction::ReplayInProgress,
                ),
                None => (ReplayMachine { phase: ReplayPhase::Draining, ..m }, ReplayAction::NoBatchInProgress),
            }
        },
        ReplayInputView::Pending(n) => if m.phase != ReplayPhase::Draining {
            (m, ReplayAction::Ignore)
        } else if n > 1 {
            (m, ReplayAction::ReceiveEvent)
        } else {
            (ReplayMachine { phase: ReplayPhase::FinalDrain, ..m }, ReplayAction::LockForFinalDrain)
        },
        ReplayInputView::Event(e) => if m.phase == ReplayPhase::Draining || m.phase
            == ReplayPhase::FinalDrain {
            (ReplayMachine { tally: tally_after_event(m.tally, e), ..m }, ReplayAction::Replay(replay_step_of(e)))
        } else {
            (m, ReplayAction::Ignore)
        },
        ReplayInputView::NoEvent => if m.phase == ReplayPhase::FinalDrain {
            (ReplayMachine { phase: ReplayPhase::Finished, ..m }, ReplayAction::Finish)
        } else {
            (m, ReplayAction::Ignore)
        },
    }
}

/// Whether the counts cannot overflow on `input`.
pub open spec fn replay_input_fits(m: ReplayMachine, input: ReplayInputView) -> bool {
    match input {
        ReplayInputView::Fetched(bs) => m.tally.batches_count + bs.len() <= u64::MAX
            && m.tally.transactions_count + completed_txs(bs) <= u64::MAX,
        ReplayInputView::InProgress(Some(n)) => m.tally.batches_count < u64::MAX
            && m.tally.transactions_count + n <= u64::MAX,
        ReplayInputView::Event(_) => m.tally.batches_count < u64::MAX && m.tally.transactions_count
            < u64::MAX,
        _ => true,
    }
}

impl ReplayMachine {
    /// A replay that starts from the node's next sequence number.
    pub fn new(next_sequence_number: SequenceNumber) -> (r: Self)
        ensures
            r == (ReplayMachine {
                phase: ReplayPhase::CatchingUp,
                tally: ReplayTally {
                    batches_count: 0,
                    transactions_count: 0,
                    batch_is_in_progress: false,
                    next_sequence_number,
                },
            }),
    {
        ReplayMachine { phase: ReplayPhase::CatchingUp, tally: ReplayTally::new(next_sequence_number) }
    }

    /// Takes in what the replay learns next and says what to do.
    pub fn step(&mut self, input: ReplayInput) -> (r: ReplayAction)
        requires
            replay_input_fits(*old(self), input@),
        ensures
            (*final(self), r) == replay_transition(*old(self), input@),
    {
        match input {
            ReplayInput::ShuttingDown => {
                if self.phase == ReplayPhase::Finished {
                    ReplayAction::Ignore
                } else {
                    self.phase = ReplayPhase::Finished;
                    ReplayAction::Abort
                }
            },
            ReplayInput::Fetched(bs) => {
                if self.phase != ReplayPhase::CatchingUp {
                    ReplayAction::Ignore
                } else if bs.len() == 0 {
                    self.phase = ReplayPhase::AwaitingInProgress;
                    ReplayAction::SubscribeAndFetchInProgress
                } else {
                    let ghost t0 = self.tally;
                    let mut i: usize = 0;
                    while i < bs.len()
                        invariant
                            0 <= i <= bs@.len(),
                            self.phase == ReplayPhase::CatchingUp,
                            self.tally == tally_after_completed(t0, bs@.take(i as int)),
                            t0.batches_count + bs@.len() <= u64::MAX,
                            t0.transactions_count + completed_txs(bs@) <= u64::MAX,
                        decreases bs@.len() - i,
                    {
                        let (sn, n) = bs[i];
                        proof {
                            assert(bs@.take(i + 1).drop_last() =~= bs@.take(i as int));
                            assert(bs@.take(i + 1).last() == bs@[i as int]);
                            lemma_completed_txs_prefix(bs@, i as int);
                            lemma_completed_txs_prefix(bs@, i + 1);
                            lemma_tally_after_completed(t0, bs@.take(i as int));
                        }
                        self.tally.record_completed_batch(sn, n);
                        i = i + 1;
                    }
                    assert(bs@.take(bs@.len() as int) =~= bs@);
                    ReplayAction::ReplayCompleted
                }
            },
            ReplayInput::InProgress(b) => {
                if self.phase != ReplayPhase::AwaitingInProgress {
                    ReplayAction::Ignore
                } else {
                    self.phase = ReplayPhase::Draining;
                    match b {
                        Some(n) => {
                            self.tally.record_in_progress_batch(n);
                            ReplayAction::ReplayInProgress
                        },
                        None => ReplayAction::NoBatchInProgress,
                    }
                }
            },
            ReplayInput::Pending(n) => {
                if self.phase != ReplayPhase::Draining {
                    ReplayAction::Ignore
                } else if n > 1 {
                    ReplayAction::ReceiveEvent
                } else {
                    self.phase = ReplayPhase::FinalDrain;
                    ReplayAction::LockForFinalDrain
                }
            },
            ReplayInput::Event(e) => {
                if self.phase == ReplayPhase::Draining || self.phase == ReplayPhase::FinalDrain {
                    let st = self.tally.do_next_event(&e);
                    ReplayAction::Replay(st)
                } else {
                    ReplayAction::Ignore
                }
            },
            ReplayInput::NoEvent => {
                if self.phase == ReplayPhase::FinalDrain {
                    self.phase = ReplayPhase::Finished;
                    ReplayAction::Finish
                } else {
                    ReplayAction::Ignore
                }
            },
        }
    }
}

/// The transactions of the first `k` complete batches are at most those of all of them.
proof fn lemma_completed_txs_prefix(bs: Seq<(SequenceNumber, usize)>, k: int)
    requires
        0 <= k <= bs.len(),
    ensures
        completed_txs(bs.take(k)) <= completed_txs(bs),
    decreases bs.len(),
{
    if k == bs.len() {
        assert(bs.take(k) =~= bs);
    } else {
        assert(bs.take(k) =~= bs.drop_last().take(k));
        lemma_completed_txs_prefix(bs.drop_last(), k);
    }
}

/// What each input does to a replay: the batch in progress, whether there
/// is one or not, leads to the events that came in meanwhile, which are then
/// received and replayed; a replay ends only on a shutdown or when no event
/// is left in the final drain, and an ended replay stays ended.
pub proof fn lemma_replay_transitions(m: ReplayMachine, input: ReplayInputView)
    ensures
        ({
            let (m2, a) = replay_transition(m, input);
            &&& m.phase == ReplayPhase::AwaitingInProgress ==> (input matches ReplayInputView::InProgress(b)
                ==> m2.phase == ReplayPhase::Draining && a == (if b is Some {
                ReplayAction::ReplayInProgress
            } else {
                ReplayAction::NoBatchInProgress
            }))
            &&& m.phase == ReplayPhase::Draining ==> (input matches ReplayInputView::Pending(n) ==> (if n > 1 {
                m2.phase == ReplayPhase::Draining && a == ReplayAction::ReceiveEvent
            } else {
                m2.phase == ReplayPhase::FinalDrain && a == ReplayAction::LockForFinalDrain
            }))
            &&& (m.phase == ReplayPhase::Draining || m.phase == ReplayPhase::FinalDrain) ==> (
            input matches ReplayInputView::Event(e) ==> m2.phase == m.phase && a == ReplayAction::Replay(
                replay_step_of(e),
            ) && m2.tally == tally_after_event(m.tally, e))
            &&& m.phase != ReplayPhase::Finished && m2.phase == ReplayPhase::Finished ==> (
            input is ShuttingDown || (input is NoEvent && m.phase == ReplayPhase::FinalDrain))
            &&& m.phase == ReplayPhase::Finished ==> m2 == m && a == ReplayAction::Ignore
        }),
{
}

/// The stage of the replay an action belongs to: the complete batches (0),
/// the batch in progress (1), the events that came in meanwhile (2), the
/// end (3); `None` for an ignored input.
pub open spec fn action_stage(a: ReplayAction) -> Option<int> {
    match a {
        ReplayAction::ReplayCompleted | ReplayAction::SubscribeAndFetchInProgress => Some(0),
        ReplayAction::ReplayInProgress | ReplayAction::NoBatchInProgress => Some(1),
        ReplayAction::ReceiveEvent | ReplayAction::Replay(_) | ReplayAction::LockForFinalDrain => Some(2),
        ReplayAction::Finish | ReplayAction::Abort => Some(3),
        ReplayAction::Ignore => None,
    }
}

/// The earliest stage an action may still belong to in a phase.
pub open spec fn phase_floor(p: ReplayPhase) -> int {
    match p {
        ReplayPhase::CatchingUp => 0,
        ReplayPhase::AwaitingInProgress => 1,
        ReplayPhase::Draining => 2,
        ReplayPhase::FinalDrain => 2,
        ReplayPhase::Finished => 4,
    }
}

/// The replay after each of the inputs, in order.
pub open spec fn replay_after(m: ReplayMachine, inputs: Seq<ReplayInputView>) -> ReplayMachine
    decreases inputs.len(),
{
    if inputs.len() == 0 {
        m
    } else {
        replay_transition(replay_after(m, inputs.drop_last()), inputs.last()).0
    }
}

/// The actions a replay asks for, one per input.
pub open spec fn replay_actions(m: ReplayMachine, inputs: Seq<ReplayInputView>) -> Seq<ReplayAction>
    decreases inputs.len(),
{
    if inputs.len() == 0 {
        Seq::empty()
    } else {
        replay_actions(m, inputs.drop_last()).push(
            replay_transition(replay_after(m, inputs.drop_last()), inputs.last()).1,
        )
    }
}

/// One transition keeps the phase from moving back, and its action belongs
/// to a stage between the phase's floor before and after.
proof fn lemma_transition_stages(m: ReplayMachine, input: ReplayInputView)
    ensures
        phase_floor(m.phase) <= phase_floor(replay_transition(m, input).0.phase),
        action_stage(replay_transition(m, input).1) matches Some(k) ==> phase_floor(m.phase) <= k
            && k <= phase_floor(replay_transition(m, input).0.phase),
{
}

/// The actions of a replay never go back a stage.
proof fn lemma_replay_actions_stages(m: ReplayMachine, inputs: Seq<ReplayInputView>)
    ensures
        replay_actions(m, inputs).len() == inputs.len(),
        phase_floor(m.phase) <= phase_floor(replay_after(m, inputs).phase),
        forall|i: int|
            0 <= i < inputs.len() ==> (action_stage(#[trigger] replay_actions(m, inputs)[i]) matches Some(k)
                ==> phase_floor(m.phase) <= k && k <= phase_floor(replay_after(m, inputs).phase)),
        forall|i: int, j: int|
            0 <= i < j < inputs.len() ==> (action_stage(#[trigger] replay_actions(m, inputs)[i]) matches Some(
                a,
            ) ==> (action_stage(#[trigger] replay_actions(m, inputs)[j]) matches Some(b) ==> a <= b)),
    decreases inputs.len(),
{
    if inputs.len() > 0 {
        let p = inputs.drop_last();
        lemma_replay_actions_stages(m, p);
        let mp = replay_after(m, p);
        lemma_transition_stages(mp, inputs.last());
        let acts = replay_actions(m, inputs);
        assert(acts == replay_actions(m, p).push(replay_transition(mp, inputs.last()).1));
        assert forall|i: int| 0 <= i < inputs.len() implies (action_stage(#[trigger] acts[i]) matches Some(k)
            ==> phase_floor(m.phase) <= k && k <= phase_floor(replay_after(m, inputs).phase)) by {
            if i < p.len() {
                assert(acts[i] == replay_actions(m, p)[i]);
            }
        }
        assert forall|i: int, j: int| 0 <= i < j < inputs.len() implies (action_stage(
            #[trigger] acts[i],
        ) matches Some(a) ==> (action_stage(#[trigger] acts[j]) matches Some(b) ==> a <= b)) by {
            assert(acts[i] == replay_actions(m, p)[i]);
            if j < p.len() {
                assert(acts[j] == replay_actions(m, p)[j]);
            }
        }
    }
}

/// Whatever the replay learns, in whatever order, it asks for the complete
/// batches first, then for the batch in progress, then for the events that
/// came in meanwhile (each in the order received), and only then ends; once
/// it has ended (finished or abandoned), it asks for nothing more.
pub proof fn lemma_replay_order(next_sequence_number: SequenceNumber, inputs: Seq<ReplayInputView>)
    ensures
        ({
            let m = ReplayMachine {
                phase: ReplayPhase::CatchingUp,
                tally: ReplayTally {
                    batches_count: 0,
                    transactions_count: 0,
                    batch_is_in_progress: false,
                    next_sequence_number,
                },
            };
            let acts = replay_actions(m, inputs);
            &&& acts.len() == inputs.len()
            &&& forall|i: int, j: int|
                0 <= i < j < acts.len() ==> (action_stage(#[trigger] acts[i]) matches Some(a) ==> (
                action_stage(#[trigger] acts[j]) matches Some(b) ==> a <= b))
            &&& forall|i: int, j: int|
                0 <= i < j < acts.len() && (#[trigger] acts[i] == ReplayAction::Finish || acts[i]
                    == ReplayAction::Abort) ==> #[trigger] acts[j] == ReplayAction::Ignore
        }),
{
    let m = ReplayMachine {
        phase: ReplayPhase::CatchingUp,
        tally: ReplayTally {
            batches_count: 0,
            transactions_count: 0,
            batch_is_in_progress: false,
            next_sequence_number,
        },
    };
    lemma_replay_actions_stages(m, inputs);
    lemma_ended_stays_ended(m, inputs);
}

/// After a Finish or an Abort, every input is ignored.
proof fn lemma_ended_stays_ended(m: ReplayMachine, inputs: Seq<ReplayInputView>)
    ensures
        forall|i: int, j: int|
            0 <= i < j < inputs.len() && (#[trigger] replay_actions(m, inputs)[i] == ReplayAction::Finish
                || replay_actions(m, inputs)[i] == ReplayAction::Abort) ==> #[trigger] replay_actions(
                m,
                inputs,
            )[j] == ReplayAction::Ignore,
        (exists|i: int|
            0 <= i < inputs.len() && (#[trigger] replay_actions(m, inputs)[i] == ReplayAction::Finish
                || replay_actions(m, inputs)[i] == ReplayAction::Abort)) ==> replay_after(m, inputs).phase
            == ReplayPhase::Finished,
    decreases inputs.len(),
{
    if inputs.len() > 0 {
        let p = inputs.drop_last();
        lemma_ended_stays_ended(m, p);
        lemma_replay_actions_stages(m, p);
        let mp = replay_after(m, p);
        let acts = replay_actions(m, inputs);
        let last = replay_transition(mp, inputs.last());
        assert(acts == replay_actions(m, p).push(last.1));
        assert forall|i: int, j: int|
            0 <= i < j < inputs.len() && (#[trigger] acts[i] == ReplayAction::Finish || acts[i]
                == ReplayAction::Abort) implies #[trigger] acts[j] == ReplayAction::Ignore by {
            assert(acts[i] == replay_actions(m, p)[i]);
            if j < p.len() {
                assert(acts[j] == replay_actions(m, p)[j]);
            } else {
                assert(mp.phase == ReplayPhase::Finished);
            }
        }
        if exists|i: int|
            0 <= i < inputs.len() && (#[trigger] acts[i] == ReplayAction::Finish || acts[i]
                == ReplayAction::Abort) {
            let i = choose|i: int|
                0 <= i < inputs.len() && (#[trigger] acts[i] == ReplayAction::Finish || acts[i]
                    == ReplayAction::Abort);
            if i < p.len() {
                assert(acts[i] == replay_actions(m, p)[i]);
                assert(mp.phase == ReplayPhase::Finished);
            }
        }
    }
}

} // verus!
