//! The preferred sequencer's in-memory view of its database: the blobs that
//! are complete, the batch in progress, and the sequence number the next
//! blob gets.
//!
//! Writing to the backing store is the caller's business and happens before
//! the in-memory state changes. Each change returns the event that must be
//! streamed to the subscriber, if there is one.
use vstd::prelude::*;

use crate::types::{FullyBakedTx, TxHash, WithCachedTxHashes};

verus! {

/// A sequence number of a preferred blob.
pub type SequenceNumber = u64;

/// A copy of a list of transactions.
pub fn copy_txs(txs: &Vec<FullyBakedTx>) -> (r: Vec<FullyBakedTx>)
    ensures
        r@.map_values(|t: FullyBakedTx| t.data@) == txs@.map_values(|t: FullyBakedTx| t.data@),
{
    let mut r: Vec<FullyBakedTx> = Vec::new();
    let mut i: usize = 0;
    while i < txs.len()
        invariant
            0 <= i <= txs@.len(),
            r@.len() == i,
            forall|k: int| 0 <= k < i ==> (#[trigger] r@[k]).data@ == txs@[k].data@,
        decreases txs@.len() - i,
    {
        let data = txs[i].data.clone();
        assert(data@ =~= txs@[i as int].data@);
        r.push(FullyBakedTx { data });
        i = i + 1;
    }
    assert(r@.map_values(|t: FullyBakedTx| t.data@) =~= txs@.map_values(|t: FullyBakedTx| t.data@));
    r
}

/// A copy of a list of hashes.
pub fn copy_hashes(hashes: &Vec<TxHash>) -> (r: Vec<TxHash>)
    ensures
        r@ == hashes@,
{
    let mut r: Vec<TxHash> = Vec::new();
    let mut i: usize = 0;
    while i < hashes.len()
        invariant
            0 <= i <= hashes@.len(),
            r@ == hashes@.take(i as int),
        decreases hashes@.len() - i,
    {
        r.push(hashes[i]);
        assert(hashes@.take(i + 1) =~= hashes@.take(i as int).push(hashes@[i as int]));
        i = i + 1;
    }
    assert(hashes@.take(hashes@.len() as int) =~= hashes@);
    r
}

/// The abstract contents of a [`PreferredSequencerReadBatch`].
pub struct BatchView {
    pub sequence_number: SequenceNumber,
    pub visible_slot_number_after_increase: u64,
    pub visible_slots_to_advance: u8,
    pub blob_id: u128,
    pub txs: Seq<Seq<u8>>,
    pub tx_hashes: Seq<Seq<u8>>,
}

/// A batch of soft-confirmed transactions, complete or in progress.
#[derive(Debug)]
pub struct PreferredSequencerReadBatch {
    pub sequence_number: SequenceNumber,
    pub visible_slot_number_after_increase: u64,
    /// Never zero.
    pub visible_slots_to_advance: u8,
    pub blob_id: u128,
    pub txs: Vec<FullyBakedTx>,
    pub tx_hashes: Vec<TxHash>,
}

impl View for PreferredSequencerReadBatch {
    type V = BatchView;

    open spec fn view(&self) -> BatchView {
        BatchView {
            sequence_number: self.sequence_number,
            visible_slot_number_after_increase: self.visible_slot_number_after_increase,
            visible_slots_to_advance: self.visible_slots_to_advance,
            blob_id: self.blob_id,
            txs: self.txs@.map_values(|t: FullyBakedTx| t.data@),
            tx_hashes: self.tx_hashes@.map_values(|h: TxHash| h@),
        }
    }
}

/// The data of a preferred batch as published on the DA.
#[derive(Debug)]
pub struct PreferredBatchData {
    pub sequence_number: SequenceNumber,
    /// Never zero.
    pub visible_slots_to_advance: u8,
    pub data: Vec<FullyBakedTx>,
}

impl PreferredSequencerReadBatch {
    /// A copy of this batch.
    pub fn duplicate(&self) -> (r: Self)
        ensures
            r@ == self@,
    {
        let txs = copy_txs(&self.txs);
        let tx_hashes = copy_hashes(&self.tx_hashes);
        PreferredSequencerReadBatch {
            sequence_number: self.sequence_number,
            visible_slot_number_after_increase: self.visible_slot_number_after_increase,
            visible_slots_to_advance: self.visible_slots_to_advance,
            blob_id: self.blob_id,
            txs,
            tx_hashes,
        }
    }

    /// The batch's transactions with their hashes, as published.
    pub fn into_with_cached_tx_hashes(self) -> (r: WithCachedTxHashes<PreferredBatchData>)
        ensures
            r.tx_hashes@ == self.tx_hashes@,
            r.inner.sequence_number == self.sequence_number,
            r.inner.visible_slots_to_advance == self.visible_slots_to_advance,
            r.inner.data@ == self.txs@,
    {
        WithCachedTxHashes {
            tx_hashes: self.tx_hashes,
            inner: PreferredBatchData {
                sequence_number: self.sequence_number,
                visible_slots_to_advance: self.visible_slots_to_advance,
                data: self.txs,
            },
        }
    }
}

/// The abstract contents of a [`PreferredSequencerReadBlob`].
pub enum BlobView {
    Batch(BatchView),
    Proof { blob_id: u128, sequence_number: SequenceNumber, data: Seq<u8> },
}

/// The sequence number of a blob.
pub open spec fn blob_sequence_number(b: BlobView) -> SequenceNumber {
    match b {
        BlobView::Batch(batch) => batch.sequence_number,
        BlobView::Proof { sequence_number, .. } => sequence_number,
    }
}

/// A complete blob: a batch or a proof.
#[derive(Debug)]
pub enum PreferredSequencerReadBlob {
    Batch(PreferredSequencerReadBatch),
    Proof { blob_id: u128, sequence_number: SequenceNumber, data: Vec<u8> },
}

impl View for PreferredSequencerReadBlob {
    type V = BlobView;

    open spec fn view(&self) -> BlobView {
        match self {
            PreferredSequencerReadBlob::Batch(b) => BlobView::Batch(b@),
            PreferredSequencerReadBlob::Proof { blob_id, sequence_number, data } => BlobView::Proof {
                blob_id: *blob_id,
                sequence_number: *sequence_number,
                data: data@,
            },
        }
    }
}

impl PreferredSequencerReadBlob {
    /// The blob's sequence number.
    pub fn sequence_number(&self) -> (r: SequenceNumber)
        ensures
            r == blob_sequence_number(self@),
    {
        match self {
            PreferredSequencerReadBlob::Batch(batch) => batch.sequence_number,
            PreferredSequencerReadBlob::Proof { sequence_number, .. } => *sequence_number,
        }
    }

    /// A copy of this blob.
    pub fn duplicate(&self) -> (r: Self)
        ensures
            r@ == self@,
    {
        match self {
            PreferredSequencerReadBlob::Batch(b) => PreferredSequencerReadBlob::Batch(b.duplicate()),
            PreferredSequencerReadBlob::Proof { blob_id, sequence_number, data } => {
                let d = data.clone();
                assert(d@ =~= data@);
                PreferredSequencerReadBlob::Proof {
                    blob_id: *blob_id,
                    sequence_number: *sequence_number,
                    data: d,
                }
            },
        }
    }
}

/// The abstract contents of a [`DbEvent`].
pub enum DbEventView {
    TxAccepted(Seq<u8>, Seq<u8>),
    BatchStarted {
        sequence_number: SequenceNumber,
        visible_slot_number_after_increase: u64,
        visible_slots_to_advance: u8,
    },
    BatchClosed(SequenceNumber),
    ProofBlobAccepted(SequenceNumber),
}

/// A change of the database, as streamed to its subscriber.
#[derive(Debug)]
pub enum DbEvent {
    TxAccepted(FullyBakedTx, TxHash),
    BatchStarted {
        sequence_number: SequenceNumber,
        visible_slot_number_after_increase: u64,
        visible_slots_to_advance: u8,
    },
    BatchClosed(SequenceNumber),
    ProofBlobAccepted(SequenceNumber),
}

impl View for DbEvent {
    type V = DbEventView;

    open spec fn view(&self) -> DbEventView {
        match self {
            DbEvent::TxAccepted(tx, h) => DbEventView::TxAccepted(tx.data@, h@),
            DbEvent::BatchStarted {
                sequence_number,
                visible_slot_number_after_increase,
                visible_slots_to_advance,
            } => DbEventView::BatchStarted {
                sequence_number: *sequence_number,
                visible_slot_number_after_increase: *visible_slot_number_after_increase,
                visible_slots_to_advance: *visible_slots_to_advance,
            },
            DbEvent::BatchClosed(n) => DbEventView::BatchClosed(*n),
            DbEvent::ProofBlobAccepted(n) => DbEventView::ProofBlobAccepted(*n),
        }
    }
}

/// The abstract state of a [`PreferredSequencerDb`].
pub struct DbStateView {
    pub next_sequence_number: SequenceNumber,
    pub completed: Seq<BlobView>,
    pub in_progress: Option<BatchView>,
    pub subscribed: bool,
}

/// The next sequence number of a database restored with the given blobs:
/// one past the greater of the last complete blob's and the batch in
/// progress's, or zero if there is neither.
pub open spec fn initial_next_sequence_number(
    completed: Seq<BlobView>,
    in_progress: Option<BatchView>,
) -> int {
    match in_progress {
        None => if completed.len() > 0 {
            blob_sequence_number(completed.last()) + 1
        } else {
            0
        },
        Some(b) => if completed.len() > 0 {
            if blob_sequence_number(completed.last()) >= b.sequence_number {
                blob_sequence_number(completed.last()) + 1
            } else {
                b.sequence_number + 1
            }
        } else {
            b.sequence_number + 1
        },
    }
}

/// The number of leading blobs whose sequence number is at most `n`.
pub open spec fn prunable_prefix_len(s: Seq<BlobView>, n: SequenceNumber) -> nat
    decreases s.len(),
{
    if s.len() == 0 || blob_sequence_number(s[0]) > n {
        0
    } else {
        1 + prunable_prefix_len(s.drop_first(), n)
    }
}

/// The blobs whose sequence number is at least `n`, in order.
pub open spec fn blobs_at_least(s: Seq<BlobView>, n: SequenceNumber) -> Seq<BlobView>
    decreases s.len(),
{
    if s.len() == 0 {
        Seq::empty()
    } else {
        let r = blobs_at_least(s.drop_last(), n);
        if blob_sequence_number(s.last()) >= n {
            r.push(s.last())
        } else {
            r
        }
    }
}

/// The blobs kept from `s` for a sequence number `n` are exactly those of
/// `s` whose sequence number is `n` or more (the one numbered `n` included),
/// in their order in `s`, and no more of them than `s` has.
pub proof fn lemma_blobs_at_least_members(s: Seq<BlobView>, n: SequenceNumber)
    ensures
        forall|b: BlobView| #[trigger] blobs_at_least(s, n).contains(b) <==> (s.contains(b)
            && blob_sequence_number(b) >= n),
        blobs_at_least(s, n).len() <= s.len(),
        forall|i: int|
            0 <= i < s.len() && blob_sequence_number(#[trigger] s[i]) >= n ==> blobs_at_least(
                s,
                n,
            ).contains(s[i]),
    decreases s.len(),
{
    if s.len() > 0 {
        let p = s.drop_last();
        lemma_blobs_at_least_members(p, n);
        let r = blobs_at_least(p, n);
        let rr = blobs_at_least(s, n);
        assert forall|b: BlobView| #[trigger] rr.contains(b) <==> (s.contains(b) && blob_sequence_number(b)
            >= n) by {
            if rr.contains(b) {
                let k = choose|k: int| 0 <= k < rr.len() && rr[k] == b;
                if k < r.len() {
                    assert(rr[k] == r[k]);
                    assert(r.contains(b));
                    let j = choose|j: int| 0 <= j < p.len() && p[j] == b;
                    assert(s[j] == b);
                } else {
                    assert(b == s.last());
                    assert(s[s.len() - 1] == b);
                }
            }
            if s.contains(b) && blob_sequence_number(b) >= n {
                let j = choose|j: int| 0 <= j < s.len() && s[j] == b;
                if j < s.len() - 1 {
                    assert(p[j] == b);
                    assert(p.contains(b));
                    let k = choose|k: int| 0 <= k < r.len() && r[k] == b;
                    assert(rr[k] == b);
                } else {
                    assert(rr[rr.len() - 1] == b);
                }
            }
        }
        assert forall|i: int|
            0 <= i < s.len() && blob_sequence_number(#[trigger] s[i]) >= n implies rr.contains(s[i]) by {
            assert(s.contains(s[i]));
        }
    }
}

/// The event streamed to the subscriber, if there is one.
pub open spec fn streamed(subscribed: bool, e: DbEventView) -> Option<DbEventView> {
    if subscribed {
        Some(e)
    } else {
        None
    }
}

/// The abstract view of an optional event.
pub open spec fn event_view(e: Option<DbEvent>) -> Option<DbEventView> {
    match e {
        Some(e) => Some(e@),
        None => None,
    }
}

/// The preferred sequencer's blobs: those that are complete, in the order
/// they were completed, and the batch in progress, if any.
pub struct PreferredSequencerDb {
    sequence_number_of_next_blob: SequenceNumber,
    completed_blobs: Vec<PreferredSequencerReadBlob>,
    in_progress_batch: Option<PreferredSequencerReadBatch>,
    subscribed: bool,
}

impl View for PreferredSequencerDb {
    type V = DbStateView;

    closed spec fn view(&self) -> DbStateView {
        DbStateView {
            next_sequence_number: self.sequence_number_of_next_blob,
            completed: self.completed_blobs@.map_values(|b: PreferredSequencerReadBlob| b@),
            in_progress: match self.in_progress_batch {
                Some(b) => Some(b@),
                None => None,
            },
            subscribed: self.subscribed,
        }
    }
}

impl PreferredSequencerDb {
    /// Restores the database from the blobs read from the backing store.
    pub fn new(
        completed_blobs: Vec<PreferredSequencerReadBlob>,
        in_progress_batch: Option<PreferredSequencerReadBatch>,
    ) -> (r: Self)
        requires
            initial_next_sequence_number(
                completed_blobs@.map_values(|b: PreferredSequencerReadBlob| b@),
                match in_progress_batch {
                    Some(b) => Some(b@),
                    None => None,
                },
            ) <= u64::MAX,
        ensures
            r@.completed == completed_blobs@.map_values(|b: PreferredSequencerReadBlob| b@),
            r@.in_progress == (match in_progress_batch {
                Some(b) => Some(b@),
                None => None,
            }),
            r@.next_sequence_number == initial_next_sequence_number(r@.completed, r@.in_progress),
            !r@.subscribed,
    {
        let n = completed_blobs.len();
        let sequence_number_of_next_blob = match &in_progress_batch {
            None => if n > 0 {
                completed_blobs[n - 1].sequence_number() + 1
            } else {
                0
            },
            Some(b) => if n > 0 {
                let last = completed_blobs[n - 1].sequence_number();
                if last >= b.sequence_number {
                    last + 1
                } else {
                    b.sequence_number + 1
                }
            } else {
                b.sequence_number + 1
            },
        };
        PreferredSequencerDb {
            sequence_number_of_next_blob,
            completed_blobs,
            in_progress_batch,
            subscribed: false,
        }
    }

    /// The sequence number the next blob gets.
    pub fn next_sequence_number(&self) -> (r: SequenceNumber)
        ensures
            r == self@.next_sequence_number,
    {
        self.sequence_number_of_next_blob
    }

    /// Overwrites the sequence number the next blob gets, e.g. with the one
    /// the node knows while syncing.
    pub fn overwrite_next_sequence_number(&mut self, sequence_number: SequenceNumber)
        ensures
            final(self)@ == (DbStateView { next_sequence_number: sequence_number, ..old(self)@ }),
    {
        self.sequence_number_of_next_blob = sequence_number;
    }

    /// Moves on to the next sequence number.
    pub fn increment_next_sequence_number(&mut self)
        requires
            old(self)@.next_sequence_number < u64::MAX,
        ensures
            final(self)@ == (DbStateView {
                next_sequence_number: (old(self)@.next_sequence_number + 1) as u64,
                ..old(self)@
            }),
    {
        self.sequence_number_of_next_blob = self.sequence_number_of_next_blob + 1;
    }

    /// The batch in progress, if any.
    pub fn in_progress_batch_opt(&self) -> (r: Option<&PreferredSequencerReadBatch>)
        ensures
            match r {
                Some(b) => self@.in_progress == Some(b@),
                None => self@.in_progress is None,
            },
    {
        self.in_progress_batch.as_ref()
    }

    /// Starts streaming events to a subscriber.
    pub fn subscribe_to_events(&mut self)
        requires
            !old(self)@.subscribed,
        ensures
            final(self)@ == (DbStateView { subscribed: true, ..old(self)@ }),
    {
        self.subscribed = true;
    }

    /// Stops streaming events, e.g. once the subscriber has gone.
    pub fn unsubscribe_from_events(&mut self)
        ensures
            final(self)@ == (DbStateView { subscribed: false, ..old(self)@ }),
    {
        self.subscribed = false;
    }

    /// Appends a transaction to the batch in progress.
    pub fn insert_tx(&mut self, tx: FullyBakedTx, hash: TxHash) -> (r: Option<DbEvent>)
        requires
            old(self)@.in_progress is Some,
        ensures
            final(self)@ == (DbStateView {
                in_progress: Some(
                    BatchView {
                        txs: old(self)@.in_progress->0.txs.push(tx.data@),
                        tx_hashes: old(self)@.in_progress->0.tx_hashes.push(hash@),
                        ..old(self)@.in_progress->0
                    },
                ),
                ..old(self)@
            }),
            event_view(r) == streamed(old(self)@.subscribed, DbEventView::TxAccepted(tx.data@, hash@)),
    {
        let ghost tv = tx.data@;
        let event_tx = FullyBakedTx { data: tx.data.clone() };
        assert(event_tx.data@ =~= tx.data@);
        match self.in_progress_batch.as_mut() {
            Some(batch) => {
                let ghost before = batch@;
                batch.txs.push(tx);
                batch.tx_hashes.push(hash);
                assert(batch@.txs =~= before.txs.push(tv));
                assert(batch@.tx_hashes =~= before.tx_hashes.push(hash@));
            },
            None => {},
        }
        if self.subscribed {
            Some(DbEvent::TxAccepted(event_tx, hash))
        } else {
            None
        }
    }

    /// Starts a batch with the next sequence number, and moves on to the
    /// following one.
    pub fn start_batch(
        &mut self,
        visible_slot_number_after_increase: u64,
        visible_slots_to_advance: u8,
        blob_id: u128,
    ) -> (r: (SequenceNumber, Option<DbEvent>))
        requires
            old(self)@.in_progress is None,
            old(self)@.next_sequence_number < u64::MAX,
        ensures
            r.0 == old(self)@.next_sequence_number,
            final(self)@ == (DbStateView {
                next_sequence_number: (r.0 + 1) as u64,
                in_progress: Some(
                    BatchView {
                        sequence_number: r.0,
                        visible_slot_number_after_increase,
                        visible_slots_to_advance,
                        blob_id,
                        txs: Seq::empty(),
                        tx_hashes: Seq::empty(),
                    },
                ),
                ..old(self)@
            }),
            event_view(r.1) == streamed(
                old(self)@.subscribed,
                DbEventView::BatchStarted {
                    sequence_number: r.0,
                    visible_slot_number_after_increase,
                    visible_slots_to_advance,
                },
            ),
    {
        let sequence_number = self.sequence_number_of_next_blob;
        let batch = PreferredSequencerReadBatch {
            sequence_number,
            visible_slot_number_after_increase,
            visible_slots_to_advance,
            blob_id,
            txs: Vec::new(),
            tx_hashes: Vec::new(),
        };
        assert(batch@.txs =~= Seq::<Seq<u8>>::empty());
        assert(batch@.tx_hashes =~= Seq::<Seq<u8>>::empty());
        self.in_progress_batch = Some(batch);
        self.increment_next_sequence_number();
        let event = if self.subscribed {
            Some(
                DbEvent::BatchStarted {
                    sequence_number,
                    visible_slot_number_after_increase,
                    visible_slots_to_advance,
                },
            )
        } else {
            None
        };
        (sequence_number, event)
    }

    /// Copies of the complete blobs whose sequence number is at least
    /// `sequence_number`, in the order they were completed.
    pub fn all_completed_blobs_greater_than_or_equal_to(&self, sequence_number: SequenceNumber) -> (r:
        Vec<PreferredSequencerReadBlob>)
        ensures
            r@.map_values(|b: PreferredSequencerReadBlob| b@) == blobs_at_least(
                self@.completed,
                sequence_number,
            ),
    {
        let ghost all = self@.completed;
        let mut r: Vec<PreferredSequencerReadBlob> = Vec::new();
        let mut i: usize = 0;
        assert(all.take(0) =~= Seq::<BlobView>::empty());
        assert(r@.map_values(|b: PreferredSequencerReadBlob| b@) =~= Seq::<BlobView>::empty());
        while i < self.completed_blobs.len()
            invariant
                0 <= i <= self.completed_blobs@.len(),
                all == self@.completed,
                all.len() == self.completed_blobs@.len(),
                r@.map_values(|b: PreferredSequencerReadBlob| b@) == blobs_at_least(
                    all.take(i as int),
                    sequence_number,
                ),
            decreases self.completed_blobs@.len() - i,
        {
            let ghost before = r@.map_values(|b: PreferredSequencerReadBlob| b@);
            assert(all.take(i + 1).drop_last() =~= all.take(i as int));
            assert(all.take(i + 1).last() == all[i as int]);
            assert(all[i as int] == self.completed_blobs@[i as int]@);
            if self.completed_blobs[i].sequence_number() >= sequence_number {
                let b = self.completed_blobs[i].duplicate();
                r.push(b);
                assert(r@.map_values(|b: PreferredSequencerReadBlob| b@) =~= before.push(
                    all[i as int],
                ));
            }
            i = i + 1;
        }
        assert(all.take(self.completed_blobs@.len() as int) =~= all);
        r
    }

    /// Stores a proof blob with the next sequence number, and moves on to the
    /// following one.
    pub fn insert_proof_blob(&mut self, blob_id: u128, data: Vec<u8>) -> (r: (
        SequenceNumber,
        Option<DbEvent>,
    ))
        requires
            old(self)@.next_sequence_number < u64::MAX,
        ensures
            r.0 == old(self)@.next_sequence_number,
            final(self)@ == (DbStateView {
                next_sequence_number: (r.0 + 1) as u64,
                completed: old(self)@.completed.push(
                    BlobView::Proof { blob_id, sequence_number: r.0, data: data@ },
                ),
                ..old(self)@
            }),
            event_view(r.1) == streamed(old(self)@.subscribed, DbEventView::ProofBlobAccepted(r.0)),
    {
        let sequence_number = self.sequence_number_of_next_blob;
        let ghost before = self@.completed;
        self.completed_blobs.push(
            PreferredSequencerReadBlob::Proof { blob_id, sequence_number, data },
        );
        assert(self@.completed =~= before.push(
            BlobView::Proof { blob_id, sequence_number, data: data@ },
        ));
        self.increment_next_sequence_number();
        let event = if self.subscribed {
            Some(DbEvent::ProofBlobAccepted(sequence_number))
        } else {
            None
        };
        (sequence_number, event)
    }

    /// Completes the batch in progress and returns a copy of it.
    pub fn terminate_batch(&mut self) -> (r: (PreferredSequencerReadBatch, Option<DbEvent>))
        requires
            old(self)@.in_progress is Some,
        ensures
            r.0@ == old(self)@.in_progress->0,
            final(self)@ == (DbStateView {
                completed: old(self)@.completed.push(BlobView::Batch(r.0@)),
                in_progress: None,
                ..old(self)@
            }),
            event_view(r.1) == streamed(
                old(self)@.subscribed,
                DbEventView::BatchClosed(r.0@.sequence_number),
            ),
    {
        let batch = self.in_progress_batch.take().unwrap();
        let copy = batch.duplicate();
        let sequence_number = batch.sequence_number;
        let ghost before = self@.completed;
        self.completed_blobs.push(PreferredSequencerReadBlob::Batch(batch));
        assert(self@.completed =~= before.push(BlobView::Batch(copy@)));
        let event = if self.subscribed {
            Some(DbEvent::BatchClosed(sequence_number))
        } else {
            None
        };
        (copy, event)
    }

    /// Forgets the leading complete blobs whose sequence number is at most
    /// `prune_up_to_including`, stopping at the first one above it.
    pub fn prune(&mut self, prune_up_to_including: SequenceNumber)
        ensures
            final(self)@ == (DbStateView {
                completed: old(self)@.completed.skip(
                    prunable_prefix_len(old(self)@.completed, prune_up_to_including) as int,
                ),
                ..old(self)@
            }),
    {
        let ghost all = self@.completed;
        let ghost mut k: int = 0;
        while self.completed_blobs.len() > 0 && self.completed_blobs[0].sequence_number()
            <= prune_up_to_including
            invariant
                0 <= k <= all.len(),
                self@.completed == all.skip(k),
                prunable_prefix_len(all, prune_up_to_including) == k + prunable_prefix_len(
                    all.skip(k),
                    prune_up_to_including,
                ),
                self@.next_sequence_number == old(self)@.next_sequence_number,
                self@.in_progress == old(self)@.in_progress,
                self@.subscribed == old(self)@.subscribed,
            decreases self.completed_blobs@.len(),
        {
            let ghost rest = all.skip(k);
            assert(rest[0] == self@.completed[0]);
            assert(rest.drop_first() =~= all.skip(k + 1));
            self.completed_blobs.remove(0);
            assert(self@.completed =~= all.skip(k + 1));
            proof {
                k = k + 1;
            }
        }
    }
}

/// The abstract contents of a [`PreferredBatchToReplay`].
pub struct ReplayView {
    pub is_in_progress: bool,
    pub visible_slot_number_after_increase: u64,
    pub sequence_number: SequenceNumber,
    pub visible_slots_to_advance: u8,
    pub txs: Seq<Seq<u8>>,
    pub tx_hashes: Seq<Seq<u8>>,
}

/// A batch to re-apply on top of the node's state.
#[derive(Debug)]
pub struct PreferredBatchToReplay {
    pub is_in_progress: bool,
    pub visible_slot_number_after_increase: u64,
    pub batch: WithCachedTxHashes<PreferredBatchData>,
}

impl View for PreferredBatchToReplay {
    type V = ReplayView;

    open spec fn view(&self) -> ReplayView {
        ReplayView {
            is_in_progress: self.is_in_progress,
            visible_slot_number_after_increase: self.visible_slot_number_after_increase,
            sequence_number: self.batch.inner.sequence_number,
            visible_slots_to_advance: self.batch.inner.visible_slots_to_advance,
            txs: self.batch.inner.data@.map_values(|t: FullyBakedTx| t.data@),
            tx_hashes: self.batch.tx_hashes@.map_values(|h: TxHash| h@),
        }
    }
}

/// The replay record of a batch.
pub open spec fn replay_of(b: BatchView, is_in_progress: bool) -> ReplayView {
    ReplayView {
        is_in_progress,
        visible_slot_number_after_increase: b.visible_slot_number_after_increase,
        sequence_number: b.sequence_number,
        visible_slots_to_advance: b.visible_slots_to_advance,
        txs: b.txs,
        tx_hashes: b.tx_hashes,
    }
}

/// The complete batches (proofs left out) whose sequence number is at least
/// `n`, in order, as replay records.
pub open spec fn batches_at_least(s: Seq<BlobView>, n: SequenceNumber) -> Seq<ReplayView>
    decreases s.len(),
{
    if s.len() == 0 {
        Seq::empty()
    } else {
        let r = batches_at_least(s.drop_last(), n);
        match s.last() {
            BlobView::Batch(b) => if b.sequence_number >= n {
                r.push(replay_of(b, false))
            } else {
                r
            },
            BlobView::Proof { .. } => r,
        }
    }
}

/// The replay records of the complete batches of `s` for a sequence number
/// `n` are exactly those of the batches of `s` numbered `n` or more (the one
/// numbered `n` included): every such batch has its record among them, and
/// each record is that of such a batch; proofs have none.
pub proof fn lemma_batches_at_least_members(s: Seq<BlobView>, n: SequenceNumber)
    ensures
        forall|i: int|
            0 <= i < s.len() && (#[trigger] s[i] matches BlobView::Batch(b) && b.sequence_number >= n)
                ==> batches_at_least(s, n).contains(replay_of(s[i]->Batch_0, false)),
        forall|k: int|
            #![trigger batches_at_least(s, n)[k]]
            0 <= k < batches_at_least(s, n).len() ==> exists|i: int|
                0 <= i < s.len() && (#[trigger] s[i] matches BlobView::Batch(b) && b.sequence_number >= n
                    && batches_at_least(s, n)[k] == replay_of(b, false)),
    decreases s.len(),
{
    if s.len() > 0 {
        let p = s.drop_last();
        lemma_batches_at_least_members(p, n);
        let r = batches_at_least(p, n);
        let rr = batches_at_least(s, n);
        assert forall|i: int|
            0 <= i < s.len() && (#[trigger] s[i] matches BlobView::Batch(b) && b.sequence_number >= n)
                implies rr.contains(replay_of(s[i]->Batch_0, false)) by {
            if i < s.len() - 1 {
                assert(p[i] == s[i]);
                let x = replay_of(s[i]->Batch_0, false);
                assert(r.contains(x));
                let k = choose|k: int| 0 <= k < r.len() && r[k] == x;
                assert(rr[k] == x);
            } else {
                assert(rr[rr.len() - 1] == replay_of(s[i]->Batch_0, false));
            }
        }
        assert forall|k: int| #![trigger rr[k]] 0 <= k < rr.len() implies exists|i: int|
            0 <= i < s.len() && (#[trigger] s[i] matches BlobView::Batch(b) && b.sequence_number >= n
                && rr[k] == replay_of(b, false)) by {
            if k < r.len() {
                assert(rr[k] == r[k]);
                let i = choose|i: int|
                    0 <= i < p.len() && (#[trigger] p[i] matches BlobView::Batch(b) && b.sequence_number
                        >= n && r[k] == replay_of(b, false));
                assert(s[i] == p[i]);
            } else {
                assert(s[s.len() - 1] == s.last());
            }
        }
    }
}

/// The replay record of a batch.
pub fn replay_record(batch: PreferredSequencerReadBatch, is_in_progress: bool) -> (r: PreferredBatchToReplay)
    ensures
        r@ == replay_of(batch@, is_in_progress),
{
    let visible_slot_number_after_increase = batch.visible_slot_number_after_increase;
    PreferredBatchToReplay {
        is_in_progress,
        visible_slot_number_after_increase,
        batch: batch.into_with_cached_tx_hashes(),
    }
}

/// The complete batches whose sequence number is at least `sequence_number`,
/// in the order they were completed; proof blobs are left out.
pub fn completed_batches_to_replay(db: &PreferredSequencerDb, sequence_number: SequenceNumber) -> (r:
    Vec<PreferredBatchToReplay>)
    ensures
        r@.map_values(|b: PreferredBatchToReplay| b@) == batches_at_least(
            db@.completed,
            sequence_number,
        ),
{
    let blobs = db.all_completed_blobs_greater_than_or_equal_to(sequence_number);
    let ghost all = db@.completed;
    let ghost bv = blobs@.map_values(|b: PreferredSequencerReadBlob| b@);
    proof {
        lemma_batches_at_least_of_filtered(all, sequence_number);
    }
    let mut r: Vec<PreferredBatchToReplay> = Vec::new();
    let mut rest = blobs;
    let n = rest.len();
    let mut i: usize = 0;
    assert(r@.map_values(|b: PreferredBatchToReplay| b@) =~= batches_at_least(bv.take(0), 0));
    while i < n
        invariant
            0 <= i <= n,
            n == bv.len(),
            rest@.len() == n - i,
            forall|k: int| 0 <= k < rest@.len() ==> (#[trigger] rest@[k])@ == bv[i + k],
            forall|k: int| 0 <= k < bv.len() ==> blob_sequence_number(#[trigger] bv[k]) >= sequence_number,
            r@.map_values(|b: PreferredBatchToReplay| b@) == batches_at_least(bv.take(i as int), 0),
        decreases n - i,
    {
        let ghost before = r@.map_values(|b: PreferredBatchToReplay| b@);
        let ghost rv = rest@;
        assert(bv.take(i + 1).drop_last() =~= bv.take(i as int));
        assert(bv.take(i + 1).last() == bv[i as int]);
        let blob = rest.remove(0);
        assert(blob@ == bv[i as int]);
        match blob {
            PreferredSequencerReadBlob::Batch(batch) => {
                r.push(replay_record(batch, false));
                assert(r@.map_values(|b: PreferredBatchToReplay| b@) =~= before.push(
                    replay_of(batch@, false),
                ));
            },
            PreferredSequencerReadBlob::Proof { .. } => {},
        }
        assert forall|k: int| 0 <= k < rest@.len() implies (#[trigger] rest@[k])@ == bv[i + 1 + k] by {
            assert(rest@[k] == rv[k + 1]);
        }
        i = i + 1;
    }
    assert(bv.take(n as int) =~= bv);
    r
}

/// Re-selecting batches among blobs already selected by sequence number
/// changes nothing.
pub proof fn lemma_batches_at_least_of_filtered(s: Seq<BlobView>, n: SequenceNumber)
    ensures
        batches_at_least(blobs_at_least(s, n), 0) == batches_at_least(s, n),
        forall|k: int|
            0 <= k < blobs_at_least(s, n).len() ==> blob_sequence_number(
                #[trigger] blobs_at_least(s, n)[k],
            ) >= n,
    decreases s.len(),
{
    if s.len() > 0 {
        lemma_batches_at_least_of_filtered(s.drop_last(), n);
        let r = blobs_at_least(s.drop_last(), n);
        if blob_sequence_number(s.last()) >= n {
            assert(r.push(s.last()).drop_last() =~= r);
        }
    }
}

/// The batches to re-apply on top of a node state whose next sequence
/// number is `sequence_number`: the complete ones from that number on, then
/// the one in progress, if any.
pub fn batches_to_replay(db: &PreferredSequencerDb, sequence_number: SequenceNumber) -> (r: Vec<
    PreferredBatchToReplay,
>)
    ensures
        r@.map_values(|b: PreferredBatchToReplay| b@) == match db@.in_progress {
            Some(b) => batches_at_least(db@.completed, sequence_number).push(replay_of(b, true)),
            None => batches_at_least(db@.completed, sequence_number),
        },
{
    let mut r = completed_batches_to_replay(db, sequence_number);
    let ghost before = r@.map_values(|b: PreferredBatchToReplay| b@);
    if let Some(batch) = db.in_progress_batch_opt() {
        r.push(replay_record(batch.duplicate(), true));
        assert(r@.map_values(|b: PreferredBatchToReplay| b@) =~= before.push(
            replay_of(batch@, true),
        ));
    }
    r
}

} // verus!
