//! The preferred batch builder's store: the batch in progress with its
//! transactions, the preferred blobs not finalized yet, and the batches not
//! sent to the DA yet.
//!
//! This is the logic of the store's tables; writing them to disk is the
//! caller's business, done before the change is applied here.
use vstd::prelude::*;

use crate::preferred::db::{copy_hashes, copy_txs, PreferredBatchData, SequenceNumber};
use crate::standard::mempool::{SeqDbTx, SeqDbTxView};
use crate::types::{FullyBakedTx, TxHash, WithCachedTxHashes};

verus! {

/// A preferred proof blob.
#[derive(Debug)]
pub struct PreferredProofData {
    pub data: Vec<u8>,
    pub sequence_number: SequenceNumber,
}

/// A stored preferred blob: a batch with the hashes of its transactions, or
/// a proof.
#[derive(Debug)]
pub enum PreferredBbDbBlob {
    Batch(WithCachedTxHashes<PreferredBatchData>),
    Proof(PreferredProofData),
}

/// The abstract contents of a [`PreferredBbDbBlob`].
pub enum BbBlobView {
    Batch {
        sequence_number: SequenceNumber,
        visible_slots_to_advance: u8,
        txs: Seq<Seq<u8>>,
        tx_hashes: Seq<Seq<u8>>,
    },
    Proof { sequence_number: SequenceNumber, data: Seq<u8> },
}

/// The abstract contents of a batch with its hashes.
pub open spec fn batch_view(b: WithCachedTxHashes<PreferredBatchData>) -> BbBlobView {
    BbBlobView::Batch {
        sequence_number: b.inner.sequence_number,
        visible_slots_to_advance: b.inner.visible_slots_to_advance,
        txs: b.inner.data@.map_values(|t: FullyBakedTx| t.data@),
        tx_hashes: b.tx_hashes@.map_values(|h: TxHash| h@),
    }
}

impl View for PreferredBbDbBlob {
    type V = BbBlobView;

    open spec fn view(&self) -> BbBlobView {
        match self {
            PreferredBbDbBlob::Batch(b) => batch_view(*b),
            PreferredBbDbBlob::Proof(p) => BbBlobView::Proof {
                sequence_number: p.sequence_number,
                data: p.data@,
            },
        }
    }
}

/// The sequence number of a blob.
pub open spec fn bb_blob_seq(b: BbBlobView) -> SequenceNumber {
    match b {
        BbBlobView::Batch { sequence_number, .. } => sequence_number,
        BbBlobView::Proof { sequence_number, .. } => sequence_number,
    }
}

/// A copy of a batch with its hashes.
pub fn copy_batch(b: &WithCachedTxHashes<PreferredBatchData>) -> (r: WithCachedTxHashes<
    PreferredBatchData,
>)
    ensures
        batch_view(r) == batch_view(*b),
{
    WithCachedTxHashes {
        inner: PreferredBatchData {
            sequence_number: b.inner.sequence_number,
            visible_slots_to_advance: b.inner.visible_slots_to_advance,
            data: copy_txs(&b.inner.data),
        },
        tx_hashes: copy_hashes(&b.tx_hashes),
    }
}

impl PreferredBbDbBlob {
    /// The blob's sequence number.
    pub fn sequence_number(&self) -> (r: SequenceNumber)
        ensures
            r == bb_blob_seq(self@),
    {
        match self {
            PreferredBbDbBlob::Batch(b) => b.inner.sequence_number,
            PreferredBbDbBlob::Proof(p) => p.sequence_number,
        }
    }

    /// The visible slots a batch advances; none for a proof.
    pub fn visible_slots_to_advance(&self) -> (r: Option<u8>)
        ensures
            match self@ {
                BbBlobView::Batch { visible_slots_to_advance, .. } => r == Some(
                    visible_slots_to_advance,
                ),
                BbBlobView::Proof { .. } => r is None,
            },
    {
        match self {
            PreferredBbDbBlob::Batch(b) => Some(b.inner.visible_slots_to_advance),
            PreferredBbDbBlob::Proof(_) => None,
        }
    }

    /// A copy of this blob.
    pub fn duplicate(&self) -> (r: Self)
        ensures
            r@ == self@,
    {
        match self {
            PreferredBbDbBlob::Batch(b) => PreferredBbDbBlob::Batch(copy_batch(b)),
            PreferredBbDbBlob::Proof(p) => {
                let data = p.data.clone();
                assert(data@ =~= p.data@);
                PreferredBbDbBlob::Proof(
                    PreferredProofData { data, sequence_number: p.sequence_number },
                )
            },
        }
    }
}

/// The batch in progress: its sequence number and the visible slots it
/// advances (never zero).
#[derive(Debug, Clone, Copy, PartialEq, Eq, Structural)]
pub struct InProgressBatchInfo {
    pub sequence_number: SequenceNumber,
    pub visible_slots_to_advance: u8,
}

/// The abstract state of a [`PreferredBbDb`].
pub struct BbDbView {
    pub next_sequence_number: SequenceNumber,
    pub in_progress: Option<InProgressBatchInfo>,
    /// The transactions of the batch in progress, by increasing identifier.
    pub in_progress_txs: Seq<SeqDbTxView>,
    /// The blobs not finalized yet, by increasing sequence number.
    pub blobs: Seq<BbBlobView>,
    /// The sequence numbers of the batches not sent yet, increasing.
    pub waiting: Seq<SequenceNumber>,
}

/// The blobs' sequence numbers strictly increase.
pub open spec fn blobs_sorted(bs: Seq<BbBlobView>) -> bool {
    forall|i: int, j: int| 0 <= i < j < bs.len() ==> bb_blob_seq(bs[i]) < bb_blob_seq(bs[j])
}

/// The numbers strictly increase.
pub open spec fn numbers_sorted(ns: Seq<SequenceNumber>) -> bool {
    forall|i: int, j: int| 0 <= i < j < ns.len() ==> ns[i] < ns[j]
}

/// The transactions' identifiers strictly increase.
pub open spec fn txs_sorted(ts: Seq<SeqDbTxView>) -> bool {
    forall|i: int, j: int| 0 <= i < j < ts.len() ==> ts[i].uuid_v7 < ts[j].uuid_v7
}

/// The invariant of the store's contents, which the store's consistency
/// checks assert: blobs ordered by sequence number, every complete batch before
/// the batch in progress, every number below the next one, and the batches
/// waiting to be sent stored as batches.
pub open spec fn bb_db_invariant(v: BbDbView) -> bool {
    &&& blobs_sorted(v.blobs)
    &&& numbers_sorted(v.waiting)
    &&& txs_sorted(v.in_progress_txs)
    &&& forall|i: int| 0 <= i < v.blobs.len() ==> bb_blob_seq(#[trigger] v.blobs[i]) < v.next_sequence_number
    &&& forall|i: int| 0 <= i < v.waiting.len() ==> #[trigger] v.waiting[i] < v.next_sequence_number
    &&& forall|i: int, j: int|
        #![trigger v.waiting[i], v.blobs[j]]
        0 <= i < v.waiting.len() && 0 <= j < v.blobs.len() && v.waiting[i] == bb_blob_seq(
            v.blobs[j],
        ) ==> v.blobs[j] is Batch
    &&& match v.in_progress {
        Some(info) => {
            &&& info.sequence_number < v.next_sequence_number
            &&& forall|i: int|
                0 <= i < v.blobs.len() ==> bb_blob_seq(#[trigger] v.blobs[i]) != info.sequence_number
            &&& forall|i: int|
                0 <= i < v.blobs.len() && v.blobs[i] is Batch ==> bb_blob_seq(#[trigger] v.blobs[i])
                    < info.sequence_number
            &&& forall|i: int| 0 <= i < v.waiting.len() ==> #[trigger] v.waiting[i] != info.sequence_number
        },
        None => v.in_progress_txs.len() == 0,
    }
}

/// The number of keys below `x`.
pub open spec fn keys_below(ks: Seq<int>, x: int) -> nat
    decreases ks.len(),
{
    if ks.len() == 0 {
        0
    } else {
        keys_below(ks.drop_last(), x) + if ks.last() < x {
            1nat
        } else {
            0nat
        }
    }
}

/// In strictly increasing keys, those below `x` are the first `k`, when
/// the first `k` are below it and the next, if any, is not.
pub proof fn lemma_keys_below_sorted(ks: Seq<int>, k: int, x: int)
    requires
        0 <= k <= ks.len(),
        forall|i: int, j: int| 0 <= i < j < ks.len() ==> ks[i] < ks[j],
        forall|j: int| 0 <= j < k ==> ks[j] < x,
        k < ks.len() ==> ks[k] >= x,
    ensures
        keys_below(ks, x) == k,
    decreases ks.len(),
{
    if ks.len() > 0 {
        if k == ks.len() {
            lemma_keys_below_sorted(ks.drop_last(), k - 1, x);
        } else {
            assert(ks.last() >= x) by {
                if ks.len() - 1 > k {
                    assert(ks[k] < ks[ks.len() - 1]);
                }
            }
            lemma_keys_below_sorted(ks.drop_last(), k, x);
        }
    }
}

/// The identifiers of transactions, as keys.
pub open spec fn tx_keys(ts: Seq<SeqDbTxView>) -> Seq<int> {
    ts.map_values(|t: SeqDbTxView| t.uuid_v7 as int)
}

/// The sequence numbers of blobs, as keys.
pub open spec fn blob_keys(bs: Seq<BbBlobView>) -> Seq<int> {
    bs.map_values(|b: BbBlobView| bb_blob_seq(b) as int)
}

/// Numbers, as keys.
pub open spec fn number_keys(ns: Seq<SequenceNumber>) -> Seq<int> {
    ns.map_values(|n: SequenceNumber| n as int)
}

/// The transactions once `t` was stored by its identifier: it replaces the
/// one with the same identifier, or goes where the order puts it.
pub open spec fn put_tx(ts: Seq<SeqDbTxView>, t: SeqDbTxView) -> Seq<SeqDbTxView> {
    let k = keys_below(tx_keys(ts), t.uuid_v7 as int) as int;
    if k < ts.len() && ts[k].uuid_v7 == t.uuid_v7 {
        ts.update(k, t)
    } else {
        ts.insert(k, t)
    }
}

/// The blobs once `b` was stored at its sequence number, where the order
/// puts it.
pub open spec fn put_blob(bs: Seq<BbBlobView>, b: BbBlobView) -> Seq<BbBlobView> {
    bs.insert(keys_below(blob_keys(bs), bb_blob_seq(b) as int) as int, b)
}

/// The numbers once `n` was added where the order puts it.
pub open spec fn put_number(ns: Seq<SequenceNumber>, n: SequenceNumber) -> Seq<SequenceNumber> {
    ns.insert(keys_below(number_keys(ns), n as int) as int, n)
}

/// The preferred batch builder's store.
pub struct PreferredBbDb {
    sequence_number_of_next_blob: SequenceNumber,
    in_progress: Option<InProgressBatchInfo>,
    in_progress_txs: Vec<SeqDbTx>,
    blobs: Vec<PreferredBbDbBlob>,
    waiting: Vec<SequenceNumber>,
}

impl View for PreferredBbDb {
    type V = BbDbView;

    closed spec fn view(&self) -> BbDbView {
        BbDbView {
            next_sequence_number: self.sequence_number_of_next_blob,
            in_progress: self.in_progress,
            in_progress_txs: self.in_progress_txs@.map_values(|t: SeqDbTx| t@),
            blobs: self.blobs@.map_values(|b: PreferredBbDbBlob| b@),
            waiting: self.waiting@,
        }
    }
}

/// The greatest sequence number stored, if any.
pub open spec fn greatest_stored(bs: Seq<BbBlobView>) -> Option<SequenceNumber> {
    if bs.len() == 0 {
        None
    } else {
        Some(bb_blob_seq(bs.last()))
    }
}

/// The next sequence number of a reopened store: one past the greater of
/// the batch in progress and the greatest stored blob, or zero.
pub open spec fn spec_next_sequence_number_of(in_progress: Option<SequenceNumber>, greatest: Option<SequenceNumber>) -> int {
    match (in_progress, greatest) {
        (Some(a), Some(b)) => if a >= b { a + 1 } else { b + 1 },
        (Some(a), None) => a + 1,
        (None, Some(b)) => b + 1,
        (None, None) => 0,
    }
}

/// The next sequence number of a reopened store.
pub fn calculate_sequence_number_of_next_blob(
    sequence_number_of_in_progress_batch: Option<SequenceNumber>,
    greatest_sequence_number_presently_stored: Option<SequenceNumber>,
) -> (r: SequenceNumber)
    requires
        spec_next_sequence_number_of(
            sequence_number_of_in_progress_batch,
            greatest_sequence_number_presently_stored,
        ) <= u64::MAX,
    ensures
        r == spec_next_sequence_number_of(
            sequence_number_of_in_progress_batch,
            greatest_sequence_number_presently_stored,
        ),
{
    match (sequence_number_of_in_progress_batch, greatest_sequence_number_presently_stored) {
        (Some(a), Some(b)) => if a >= b {
            a + 1
        } else {
            b + 1
        },
        (Some(a), None) => a + 1,
        (None, Some(b)) => b + 1,
        (None, None) => 0,
    }
}

impl PreferredBbDb {
    /// The store's invariant.
    pub closed spec fn wf(&self) -> bool {
        bb_db_invariant(self@)
    }

    /// What callers may rely on whenever the invariant holds.
    pub proof fn lemma_wf(&self)
        requires
            self.wf(),
        ensures
            bb_db_invariant(self@),
    {
    }

    /// Reopens the store with the contents of its tables: the blobs not
    /// finalized, by sequence number; the batch in progress and its
    /// transactions, by identifier; the batches not sent yet. The next
    /// sequence number follows the greatest one found.
    pub fn new(
        blobs: Vec<PreferredBbDbBlob>,
        in_progress: Option<InProgressBatchInfo>,
        in_progress_txs: Vec<SeqDbTx>,
        waiting: Vec<SequenceNumber>,
    ) -> (r: Self)
        requires
            spec_next_sequence_number_of(
                match in_progress {
                    Some(i) => Some(i.sequence_number),
                    None => None,
                },
                greatest_stored(blobs@.map_values(|b: PreferredBbDbBlob| b@)),
            ) <= u64::MAX,
            bb_db_invariant(
                BbDbView {
                    next_sequence_number: spec_next_sequence_number_of(
                        match in_progress {
                            Some(i) => Some(i.sequence_number),
                            None => None,
                        },
                        greatest_stored(blobs@.map_values(|b: PreferredBbDbBlob| b@)),
                    ) as u64,
                    in_progress,
                    in_progress_txs: in_progress_txs@.map_values(|t: SeqDbTx| t@),
                    blobs: blobs@.map_values(|b: PreferredBbDbBlob| b@),
                    waiting: waiting@,
                },
            ),
        ensures
            r.wf(),
            r@.next_sequence_number == spec_next_sequence_number_of(
                match in_progress {
                    Some(i) => Some(i.sequence_number),
                    None => None,
                },
                greatest_stored(blobs@.map_values(|b: PreferredBbDbBlob| b@)),
            ),
            r@.in_progress == in_progress,
            r@.in_progress_txs == in_progress_txs@.map_values(|t: SeqDbTx| t@),
            r@.blobs == blobs@.map_values(|b: PreferredBbDbBlob| b@),
            r@.waiting == waiting@,
    {
        let greatest = if blobs.len() == 0 {
            None
        } else {
            Some(blobs[blobs.len() - 1].sequence_number())
        };
        let in_progress_seq = match in_progress {
            Some(i) => Some(i.sequence_number),
            None => None,
        };
        let next = calculate_sequence_number_of_next_blob(in_progress_seq, greatest);
        PreferredBbDb {
            sequence_number_of_next_blob: next,
            in_progress,
            in_progress_txs,
            blobs,
            waiting,
        }
    }

    /// The sequence number of the batch in progress, if any.
    pub fn sequence_number_of_in_progress_batch(&self) -> (r: Option<SequenceNumber>)
        ensures
            r == match self@.in_progress {
                Some(i) => Some(i.sequence_number),
                None => None,
            },
    {
        match self.in_progress {
            Some(i) => Some(i.sequence_number),
            None => None,
        }
    }

    /// The sequence number the next blob gets.
    pub fn next_sequence_number(&self) -> (r: SequenceNumber)
        ensures
            r == self@.next_sequence_number,
    {
        self.sequence_number_of_next_blob
    }

    /// Starts a batch with the next sequence number, which is returned, and
    /// moves on to the following one.
    pub fn start_batch(&mut self, visible_slots_to_advance: u8) -> (r: SequenceNumber)
        requires
            old(self).wf(),
            old(self)@.in_progress is None,
            old(self)@.next_sequence_number < u64::MAX,
        ensures
            is_store_step(old(self)@, final(self)@, Some(r)),
            final(self).wf(),
            r == old(self)@.next_sequence_number,
            final(self)@ == (BbDbView {
                next_sequence_number: (r + 1) as u64,
                in_progress: Some(InProgressBatchInfo { sequence_number: r, visible_slots_to_advance }),
                ..old(self)@
            }),
    {
        let sequence_number = self.sequence_number_of_next_blob;
        self.in_progress = Some(InProgressBatchInfo { sequence_number, visible_slots_to_advance });
        self.sequence_number_of_next_blob = sequence_number + 1;
        sequence_number
    }

    /// Stores a proof blob with the next sequence number, which is returned,
    /// and moves on to the following one.
    pub fn insert_proof_blob(&mut self, data: Vec<u8>) -> (r: SequenceNumber)
        requires
            old(self)@.next_sequence_number < u64::MAX,
        ensures
            is_store_step(old(self)@, final(self)@, Some(r)),
            old(self).wf() ==> final(self).wf(),
            r == old(self)@.next_sequence_number,
            final(self)@ == (BbDbView {
                next_sequence_number: (r + 1) as u64,
                blobs: old(self)@.blobs.push(BbBlobView::Proof { sequence_number: r, data: data@ }),
                ..old(self)@
            }),
    {
        let sequence_number = self.sequence_number_of_next_blob;
        let ghost before = self@.blobs;
        let ghost dv = data@;
        self.blobs.push(PreferredBbDbBlob::Proof(PreferredProofData { data, sequence_number }));
        self.sequence_number_of_next_blob = sequence_number + 1;
        proof {
            let after = self@.blobs;
            assert(after =~= before.push(BbBlobView::Proof { sequence_number, data: dv }));
            if old(self).wf() {
                assert forall|i: int, j: int|
                    #![trigger self@.waiting[i], self@.blobs[j]]
                    0 <= i < self@.waiting.len() && 0 <= j < self@.blobs.len() && self@.waiting[i]
                        == bb_blob_seq(self@.blobs[j]) implies self@.blobs[j] is Batch by {
                    if j < before.len() {
                        assert(after[j] == before[j]);
                    } else {
                        assert(self@.waiting[i] < sequence_number);
                    }
                }
                assert forall|i: int, j: int| 0 <= i < j < after.len() implies bb_blob_seq(after[i])
                    < bb_blob_seq(after[j]) by {
                    assert(after[i] == before[i]);
                    if j < before.len() {
                        assert(after[j] == before[j]);
                    }
                }
                assert forall|i: int| 0 <= i < after.len() implies bb_blob_seq(#[trigger] after[i])
                    < self.sequence_number_of_next_blob by {
                    if i < before.len() {
                        assert(after[i] == before[i]);
                    }
                }
                match self.in_progress {
                    Some(info) => {
                        assert forall|i: int| 0 <= i < after.len() implies bb_blob_seq(#[trigger] after[i])
                            != info.sequence_number by {
                            if i < before.len() {
                                assert(after[i] == before[i]);
                            }
                        }
                        assert forall|i: int|
                            0 <= i < after.len() && after[i] is Batch implies bb_blob_seq(
                            #[trigger] after[i],
                        ) < info.sequence_number by {
                            if i < before.len() {
                                assert(after[i] == before[i]);
                            }
                        }
                    },
                    None => {},
                }
            }
        }
        sequence_number
    }

    /// Forgets the earliest batch not sent yet, once it was sent.
    pub fn advance_not_sent_yet_cursor(&mut self)
        requires
            old(self).wf(),
        ensures
            is_store_step(old(self)@, final(self)@, None),
            final(self).wf(),
            final(self)@ == (BbDbView {
                waiting: if old(self)@.waiting.len() > 0 {
                    old(self)@.waiting.drop_first()
                } else {
                    old(self)@.waiting
                },
                ..old(self)@
            }),
    {
        if self.waiting.len() > 0 {
            let ghost before = self@.waiting;
            self.waiting.remove(0);
            assert(self@.waiting =~= before.drop_first());
            proof {
                let w = self@.waiting;
                assert forall|i: int, j: int|
                    #![trigger self@.waiting[i], self@.blobs[j]]
                    0 <= i < w.len() && 0 <= j < self@.blobs.len() && w[i] == bb_blob_seq(
                        self@.blobs[j],
                    ) implies self@.blobs[j] is Batch by {
                    assert(w[i] == before[i + 1]);
                }
                assert forall|i: int, j: int| 0 <= i < j < w.len() implies w[i] < w[j] by {
                    assert(w[i] == before[i + 1] && w[j] == before[j + 1]);
                }
                assert forall|i: int| 0 <= i < w.len() implies #[trigger] w[i]
                    < self.sequence_number_of_next_blob by {
                    assert(w[i] == before[i + 1]);
                }
                match self.in_progress {
                    Some(info) => {
                        assert forall|i: int| 0 <= i < w.len() implies #[trigger] w[i]
                            != info.sequence_number by {
                            assert(w[i] == before[i + 1]);
                        }
                    },
                    None => {},
                }
            }
        }
    }

    /// The batch in progress, with its transactions in the order of their
    /// identifiers and their hashes; `None` when there is none.
    pub fn in_progress_batch_opt(&self) -> (r: Option<WithCachedTxHashes<PreferredBatchData>>)
        ensures
            match self@.in_progress {
                None => r is None,
                Some(info) => r matches Some(b) && batch_view(b) == (BbBlobView::Batch {
                    sequence_number: info.sequence_number,
                    visible_slots_to_advance: info.visible_slots_to_advance,
                    txs: self@.in_progress_txs.map_values(|t: SeqDbTxView| t.tx),
                    tx_hashes: self@.in_progress_txs.map_values(|t: SeqDbTxView| t.hash),
                }),
            },
    {
        match self.in_progress {
            None => None,
            Some(info) => {
                let ghost ts = self@.in_progress_txs;
                let mut data: Vec<FullyBakedTx> = Vec::new();
                let mut tx_hashes: Vec<TxHash> = Vec::new();
                let mut i: usize = 0;
                while i < self.in_progress_txs.len()
                    invariant
                        0 <= i <= self.in_progress_txs@.len(),
                        ts == self.in_progress_txs@.map_values(|t: SeqDbTx| t@),
                        data@.map_values(|t: FullyBakedTx| t.data@) == ts.map_values(
                            |t: SeqDbTxView| t.tx,
                        ).take(i as int),
                        tx_hashes@.map_values(|h: TxHash| h@) == ts.map_values(
                            |t: SeqDbTxView| t.hash,
                        ).take(i as int),
                    decreases self.in_progress_txs@.len() - i,
                {
                    let t = self.in_progress_txs[i].duplicate();
                    assert(t@ == ts[i as int]);
                    let ghost d0 = data@.map_values(|t: FullyBakedTx| t.data@);
                    let ghost h0 = tx_hashes@.map_values(|h: TxHash| h@);
                    tx_hashes.push(t.hash);
                    data.push(t.tx);
                    assert(data@.map_values(|t: FullyBakedTx| t.data@) =~= d0.push(ts[i as int].tx));
                    assert(tx_hashes@.map_values(|h: TxHash| h@) =~= h0.push(ts[i as int].hash));
                    assert(ts.map_values(|t: SeqDbTxView| t.tx).take(i + 1) =~= ts.map_values(
                        |t: SeqDbTxView| t.tx,
                    ).take(i as int).push(ts[i as int].tx));
                    assert(ts.map_values(|t: SeqDbTxView| t.hash).take(i + 1) =~= ts.map_values(
                        |t: SeqDbTxView| t.hash,
                    ).take(i as int).push(ts[i as int].hash));
                    i = i + 1;
                }
                assert(ts.map_values(|t: SeqDbTxView| t.tx).take(ts.len() as int) =~= ts.map_values(
                    |t: SeqDbTxView| t.tx,
                ));
                assert(ts.map_values(|t: SeqDbTxView| t.hash).take(ts.len() as int)
                    =~= ts.map_values(|t: SeqDbTxView| t.hash));
                Some(
                    WithCachedTxHashes {
                        inner: PreferredBatchData {
                            sequence_number: info.sequence_number,
                            visible_slots_to_advance: info.visible_slots_to_advance,
                            data,
                        },
                        tx_hashes,
                    },
                )
            },
        }
    }

    /// The earliest batch not sent to the DA yet, if any is stored.
    pub fn earliest_batch_not_sent_yet(&self) -> (r: Option<WithCachedTxHashes<PreferredBatchData>>)
        requires
            self.wf(),
        ensures
            self@.waiting.len() == 0 ==> r is None,
            self@.waiting.len() > 0 ==> match r {
                Some(b) => exists|j: int|
                    0 <= j < self@.blobs.len() && bb_blob_seq(#[trigger] self@.blobs[j])
                        == self@.waiting[0] && self@.blobs[j] == batch_view(b),
                None => forall|j: int|
                    0 <= j < self@.blobs.len() ==> bb_blob_seq(#[trigger] self@.blobs[j])
                        != self@.waiting[0],
            },
    {
        if self.waiting.len() == 0 {
            return None;
        }
        let target = self.waiting[0];
        let mut j: usize = 0;
        while j < self.blobs.len()
            invariant
                0 <= j <= self.blobs@.len(),
                self.wf(),
                self@.waiting.len() > 0,
                target == self@.waiting[0],
                forall|k: int| 0 <= k < j ==> bb_blob_seq(#[trigger] self@.blobs[k]) != target,
            decreases self.blobs@.len() - j,
        {
            assert(self@.blobs[j as int] == self.blobs@[j as int]@);
            if self.blobs[j].sequence_number() == target {
                assert(self@.waiting[0] == bb_blob_seq(self@.blobs[j as int]));
                match &self.blobs[j] {
                    PreferredBbDbBlob::Batch(b) => {
                        return Some(copy_batch(b));
                    },
                    PreferredBbDbBlob::Proof(_) => {
                        assert(false);
                        return None;
                    },
                }
            }
            j = j + 1;
        }
        None
    }

    /// Stores a transaction of the batch in progress under its identifier;
    /// one already stored under the same identifier is replaced.
    pub fn insert_tx(&mut self, tx: &SeqDbTx)
        requires
            old(self).wf(),
            old(self)@.in_progress is Some,
        ensures
            is_store_step(old(self)@, final(self)@, None),
            final(self).wf(),
            final(self)@ == (BbDbView {
                in_progress_txs: put_tx(old(self)@.in_progress_txs, tx@),
                ..old(self)@
            }),
    {
        let ghost ts = self@.in_progress_txs;
        let ghost ks = tx_keys(ts);
        let id = tx.uuid_v7;
        let mut k: usize = 0;
        while k < self.in_progress_txs.len() && self.in_progress_txs[k].uuid_v7 < id
            invariant
                0 <= k <= self.in_progress_txs@.len(),
                ts == self.in_progress_txs@.map_values(|t: SeqDbTx| t@),
                forall|j: int| 0 <= j < k ==> #[trigger] ts[j].uuid_v7 < id,
            decreases self.in_progress_txs@.len() - k,
        {
            assert(ts[k as int].uuid_v7 == self.in_progress_txs@[k as int].uuid_v7);
            k = k + 1;
        }
        proof {
            assert forall|j: int| 0 <= j < k implies ks[j] < id by {
                assert(ts[j].uuid_v7 < id);
            }
            if k < ts.len() {
                assert(ts[k as int].uuid_v7 == self.in_progress_txs@[k as int].uuid_v7);
            }
            lemma_keys_below_sorted(ks, k as int, id as int);
        }
        let copy = tx.duplicate();
        if k < self.in_progress_txs.len() && self.in_progress_txs[k].uuid_v7 == id {
            assert(ts[k as int].uuid_v7 == id);
            self.in_progress_txs.set(k, copy);
            proof {
                let after = self@.in_progress_txs;
                assert(after =~= ts.update(k as int, tx@));
                assert forall|a: int, b: int| 0 <= a < b < after.len() implies after[a].uuid_v7
                    < after[b].uuid_v7 by {
                    assert(after[a].uuid_v7 == ts[a].uuid_v7);
                    assert(after[b].uuid_v7 == ts[b].uuid_v7);
                }
            }
        } else {
            self.in_progress_txs.insert(k, copy);
            proof {
                let after = self@.in_progress_txs;
                assert(after =~= ts.insert(k as int, tx@));
                assert forall|a: int, b: int| 0 <= a < b < after.len() implies after[a].uuid_v7
                    < after[b].uuid_v7 by {
                    if b < k {
                        assert(after[a] == ts[a] && after[b] == ts[b]);
                    } else if b == k {
                        assert(after[a] == ts[a]);
                    } else if a < k {
                        assert(after[a] == ts[a] && after[b] == ts[b - 1]);
                        assert(ts[b - 1].uuid_v7 >= id) by {
                            if b - 1 > k {
                                assert(ts[k as int].uuid_v7 < ts[b - 1].uuid_v7);
                            }
                        }
                    } else if a == k {
                        assert(after[b] == ts[b - 1]);
                        assert(ts[b - 1].uuid_v7 >= id && ts[b - 1].uuid_v7 != id) by {
                            if b - 1 > k {
                                assert(ts[k as int].uuid_v7 < ts[b - 1].uuid_v7);
                            }
                        }
                    } else {
                        assert(after[a] == ts[a - 1] && after[b] == ts[b - 1]);
                    }
                }
            }
        }
    }

    /// Completes the batch in progress: it is stored as a blob, listed as
    /// not sent yet, and returned.
    pub fn terminate_batch(&mut self) -> (r: WithCachedTxHashes<PreferredBatchData>)
        requires
            old(self).wf(),
            old(self)@.in_progress is Some,
        ensures
            is_store_step(old(self)@, final(self)@, None),
            final(self).wf(),
            batch_view(r) == (BbBlobView::Batch {
                sequence_number: old(self)@.in_progress->0.sequence_number,
                visible_slots_to_advance: old(self)@.in_progress->0.visible_slots_to_advance,
                txs: old(self)@.in_progress_txs.map_values(|t: SeqDbTxView| t.tx),
                tx_hashes: old(self)@.in_progress_txs.map_values(|t: SeqDbTxView| t.hash),
            }),
            final(self)@ == (BbDbView {
                in_progress: None,
                in_progress_txs: Seq::empty(),
                blobs: put_blob(old(self)@.blobs, batch_view(r)),
                waiting: put_number(
                    old(self)@.waiting,
                    old(self)@.in_progress->0.sequence_number,
                ),
                ..old(self)@
            }),
    {
        let ghost v0 = self@;
        let batch = self.in_progress_batch_opt().unwrap();
        let sn = batch.inner.sequence_number;
        let ghost bv = batch_view(batch);
        // The blob goes where its sequence number puts it.
        let ghost bs = self@.blobs;
        let ghost bks = blob_keys(bs);
        let mut k: usize = 0;
        while k < self.blobs.len() && self.blobs[k].sequence_number() < sn
            invariant
                0 <= k <= self.blobs@.len(),
                bs == self.blobs@.map_values(|b: PreferredBbDbBlob| b@),
                forall|j: int| 0 <= j < k ==> bb_blob_seq(#[trigger] bs[j]) < sn,
            decreases self.blobs@.len() - k,
        {
            assert(bs[k as int] == self.blobs@[k as int]@);
            k = k + 1;
        }
        proof {
            assert forall|j: int| 0 <= j < k implies bks[j] < sn by {
                assert(bb_blob_seq(bs[j]) < sn);
            }
            if k < bs.len() {
                assert(bs[k as int] == self.blobs@[k as int]@);
            }
            lemma_keys_below_sorted(bks, k as int, sn as int);
        }
        let stored = copy_batch(&batch);
        self.blobs.insert(k, PreferredBbDbBlob::Batch(stored));
        // So does the number of the batch, among those not sent yet.
        let ghost ws = self@.waiting;
        let ghost wks = number_keys(ws);
        let mut m: usize = 0;
        while m < self.waiting.len() && self.waiting[m] < sn
            invariant
                0 <= m <= self.waiting@.len(),
                ws == self.waiting@,
                forall|j: int| 0 <= j < m ==> #[trigger] ws[j] < sn,
            decreases self.waiting@.len() - m,
        {
            m = m + 1;
        }
        proof {
            lemma_keys_below_sorted(wks, m as int, sn as int);
        }
        self.waiting.insert(m, sn);
        self.in_progress_txs = Vec::new();
        self.in_progress = None;
        proof {
            let nb = self@.blobs;
            let nw = self@.waiting;
            assert(nb =~= bs.insert(k as int, bv));
            assert(nw =~= ws.insert(m as int, sn));
            assert(self@.in_progress_txs =~= Seq::<SeqDbTxView>::empty());
            // Where a blob and a number now sit, in terms of where they sat.
            assert forall|a: int, b: int| 0 <= a < b < nb.len() implies bb_blob_seq(nb[a])
                < bb_blob_seq(nb[b]) by {
                if b < k {
                    assert(nb[a] == bs[a] && nb[b] == bs[b]);
                } else if b == k {
                    assert(nb[a] == bs[a]);
                } else if a < k {
                    assert(nb[a] == bs[a] && nb[b] == bs[b - 1]);
                    assert(bb_blob_seq(bs[b - 1]) >= sn) by {
                        if b - 1 > k {
                            assert(bb_blob_seq(bs[k as int]) < bb_blob_seq(bs[b - 1]));
                        }
                    }
                } else if a == k {
                    assert(nb[b] == bs[b - 1]);
                    assert(bb_blob_seq(bs[b - 1]) != sn);
                    assert(bb_blob_seq(bs[b - 1]) >= sn) by {
                        if b - 1 > k {
                            assert(bb_blob_seq(bs[k as int]) < bb_blob_seq(bs[b - 1]));
                        }
                    }
                } else {
                    assert(nb[a] == bs[a - 1] && nb[b] == bs[b - 1]);
                }
            }
            assert forall|a: int, b: int| 0 <= a < b < nw.len() implies nw[a] < nw[b] by {
                if b < m {
                    assert(nw[a] == ws[a] && nw[b] == ws[b]);
                } else if b == m {
                    assert(nw[a] == ws[a]);
                } else if a < m {
                    assert(nw[a] == ws[a] && nw[b] == ws[b - 1]);
                    assert(ws[b - 1] >= sn) by {
                        if b - 1 > m {
                            assert(ws[m as int] < ws[b - 1]);
                        }
                    }
                } else if a == m {
                    assert(nw[b] == ws[b - 1]);
                    assert(ws[b - 1] != sn);
                    assert(ws[b - 1] >= sn) by {
                        if b - 1 > m {
                            assert(ws[m as int] < ws[b - 1]);
                        }
                    }
                } else {
                    assert(nw[a] == ws[a - 1] && nw[b] == ws[b - 1]);
                }
            }
            assert forall|i: int| 0 <= i < nb.len() implies bb_blob_seq(#[trigger] nb[i])
                < v0.next_sequence_number by {
                if i < k {
                    assert(nb[i] == bs[i]);
                } else if i > k {
                    assert(nb[i] == bs[i - 1]);
                }
            }
            assert forall|i: int| 0 <= i < nw.len() implies #[trigger] nw[i] < v0.next_sequence_number by {
                if i < m {
                    assert(nw[i] == ws[i]);
                } else if i > m {
                    assert(nw[i] == ws[i - 1]);
                }
            }
            assert forall|i: int, j: int|
                #![trigger nw[i], nb[j]]
                0 <= i < nw.len() && 0 <= j < nb.len() && nw[i] == bb_blob_seq(nb[j]) implies nb[j] is Batch by {
                if j != k {
                    let jj = if j < k { j } else { j - 1 };
                    assert(nb[j] == bs[jj]);
                    assert(bb_blob_seq(bs[jj]) != sn);
                    let ii = if i < m { i } else { i - 1 };
                    assert(i != m);
                    assert(nw[i] == ws[ii]);
                    assert(ws[ii] == bb_blob_seq(bs[jj]));
                    assert(v0.waiting[ii] == bb_blob_seq(v0.blobs[jj]));
                }
            }
        }
        batch
    }

    /// Forgets the blobs whose sequence number is at most
    /// `prune_up_to_including`. The batch in progress is never finalized,
    /// so it must come after them.
    fn prune_up_to_including(&mut self, prune_up_to_including: SequenceNumber)
        requires
            old(self).wf(),
            old(self)@.in_progress matches Some(info) ==> info.sequence_number > prune_up_to_including,
        ensures
            final(self).wf(),
            final(self)@ == (BbDbView {
                blobs: old(self)@.blobs.skip(
                    keys_below(blob_keys(old(self)@.blobs), prune_up_to_including + 1) as int,
                ),
                ..old(self)@
            }),
    {
        let ghost bs = self@.blobs;
        let ghost bks = blob_keys(bs);
        let mut k: usize = 0;
        while k < self.blobs.len() && self.blobs[k].sequence_number() <= prune_up_to_including
            invariant
                0 <= k <= self.blobs@.len(),
                bs == self.blobs@.map_values(|b: PreferredBbDbBlob| b@),
                forall|j: int| 0 <= j < k ==> bb_blob_seq(#[trigger] bs[j]) <= prune_up_to_including,
            decreases self.blobs@.len() - k,
        {
            assert(bs[k as int] == self.blobs@[k as int]@);
            k = k + 1;
        }
        proof {
            assert forall|j: int| 0 <= j < k implies bks[j] < prune_up_to_including + 1 by {
                assert(bb_blob_seq(bs[j]) <= prune_up_to_including);
            }
            if k < bs.len() {
                assert(bs[k as int] == self.blobs@[k as int]@);
            }
            lemma_keys_below_sorted(bks, k as int, prune_up_to_including + 1);
        }
        let rest = self.blobs.split_off(k);
        self.blobs = rest;
        proof {
            let nb = self@.blobs;
            assert(nb =~= bs.skip(k as int));
            assert forall|a: int, b: int| 0 <= a < b < nb.len() implies bb_blob_seq(nb[a])
                < bb_blob_seq(nb[b]) by {
                assert(nb[a] == bs[a + k] && nb[b] == bs[b + k]);
            }
            assert forall|i: int| 0 <= i < nb.len() implies bb_blob_seq(#[trigger] nb[i])
                < self@.next_sequence_number by {
                assert(nb[i] == bs[i + k]);
            }
            assert forall|i: int, j: int|
                #![trigger self@.waiting[i], nb[j]]
                0 <= i < self@.waiting.len() && 0 <= j < nb.len() && self@.waiting[i] == bb_blob_seq(
                    nb[j],
                ) implies nb[j] is Batch by {
                assert(nb[j] == bs[j + k]);
                assert(old(self)@.waiting[i] == bb_blob_seq(old(self)@.blobs[j + k]));
            }
            match self.in_progress {
                Some(info) => {
                    assert forall|i: int| 0 <= i < nb.len() implies bb_blob_seq(#[trigger] nb[i])
                        != info.sequence_number by {
                        assert(nb[i] == bs[i + k]);
                    }
                    assert forall|i: int|
                        0 <= i < nb.len() && nb[i] is Batch implies bb_blob_seq(#[trigger] nb[i])
                        < info.sequence_number by {
                        assert(nb[i] == bs[i + k]);
                    }
                },
                None => {},
            }
        }
    }

    /// Brings the next sequence number up to what the node knows, and
    /// forgets the blobs the node has finalized: `node_next_sequence_number`
    /// is the node's next sequence number, `node_next_sequence_number_finalized`
    /// the one as of the latest finalized slot.
    pub fn recalculate_next_sequence_number(
        &mut self,
        node_next_sequence_number: SequenceNumber,
        node_next_sequence_number_finalized: SequenceNumber,
    )
        requires
            old(self).wf(),
            node_next_sequence_number_finalized > 0 ==> (old(self)@.in_progress matches Some(info)
                ==> info.sequence_number >= node_next_sequence_number_finalized),
        ensures
            is_store_step(old(self)@, final(self)@, None),
            final(self).wf(),
            final(self)@ == (BbDbView {
                next_sequence_number: if node_next_sequence_number > old(self)@.next_sequence_number {
                    node_next_sequence_number
                } else {
                    old(self)@.next_sequence_number
                },
                blobs: if node_next_sequence_number_finalized > 0 {
                    old(self)@.blobs.skip(
                        keys_below(
                            blob_keys(old(self)@.blobs),
                            node_next_sequence_number_finalized as int,
                        ) as int,
                    )
                } else {
                    old(self)@.blobs
                },
                ..old(self)@
            }),
    {
        let next = if node_next_sequence_number > self.sequence_number_of_next_blob {
            node_next_sequence_number
        } else {
            self.sequence_number_of_next_blob
        };
        if node_next_sequence_number_finalized > 0 {
            self.prune_up_to_including(node_next_sequence_number_finalized - 1);
        }
        self.sequence_number_of_next_blob = next;
    }

    /// Copies of the blobs the node has not processed yet: those from its
    /// next sequence number on, in order.
    pub fn all_subsequent_blobs(&self, next_sequence_number_according_to_node: SequenceNumber) -> (r:
        Vec<PreferredBbDbBlob>)
        requires
            self.wf(),
        ensures
            r@.map_values(|b: PreferredBbDbBlob| b@) == self@.blobs.skip(
                keys_below(
                    blob_keys(self@.blobs),
                    next_sequence_number_according_to_node as int,
                ) as int,
            ),
            blobs_sorted(r@.map_values(|b: PreferredBbDbBlob| b@)),
            forall|i: int|
                0 <= i < r@.len() ==> bb_blob_seq(#[trigger] r@[i]@)
                    >= next_sequence_number_according_to_node,
            self@.in_progress matches Some(info) ==> forall|i: int|
                0 <= i < r@.len() && r@[i]@ is Batch ==> bb_blob_seq(#[trigger] r@[i]@)
                    < info.sequence_number,
    {
        let ghost bs = self@.blobs;
        let ghost bks = blob_keys(bs);
        let n = next_sequence_number_according_to_node;
        let mut k: usize = 0;
        while k < self.blobs.len() && self.blobs[k].sequence_number() < n
            invariant
                0 <= k <= self.blobs@.len(),
                bs == self.blobs@.map_values(|b: PreferredBbDbBlob| b@),
                forall|j: int| 0 <= j < k ==> bb_blob_seq(#[trigger] bs[j]) < n,
            decreases self.blobs@.len() - k,
        {
            assert(bs[k as int] == self.blobs@[k as int]@);
            k = k + 1;
        }
        proof {
            assert forall|j: int| 0 <= j < k implies bks[j] < n by {
                assert(bb_blob_seq(bs[j]) < n);
            }
            if k < bs.len() {
                assert(bs[k as int] == self.blobs@[k as int]@);
            }
            lemma_keys_below_sorted(bks, k as int, n as int);
        }
        let mut r: Vec<PreferredBbDbBlob> = Vec::new();
        let mut i: usize = k;
        while i < self.blobs.len()
            invariant
                k <= i <= self.blobs@.len(),
                bs == self.blobs@.map_values(|b: PreferredBbDbBlob| b@),
                r@.map_values(|b: PreferredBbDbBlob| b@) == bs.subrange(k as int, i as int),
            decreases self.blobs@.len() - i,
        {
            let ghost r0 = r@.map_values(|b: PreferredBbDbBlob| b@);
            let b = self.blobs[i].duplicate();
            assert(b@ == bs[i as int]);
            r.push(b);
            assert(r@.map_values(|b: PreferredBbDbBlob| b@) =~= r0.push(bs[i as int]));
            assert(bs.subrange(k as int, i + 1) =~= bs.subrange(k as int, i as int).push(
                bs[i as int],
            ));
            i = i + 1;
        }
        proof {
            let rv = r@.map_values(|b: PreferredBbDbBlob| b@);
            assert(bs.subrange(k as int, bs.len() as int) =~= bs.skip(k as int));
            assert forall|a: int, b: int| 0 <= a < b < rv.len() implies bb_blob_seq(rv[a])
                < bb_blob_seq(rv[b]) by {
                assert(rv[a] == bs[a + k] && rv[b] == bs[b + k]);
            }
            assert forall|i: int| 0 <= i < r@.len() implies bb_blob_seq(#[trigger] r@[i]@) >= n by {
                assert(r@[i]@ == rv[i]);
                assert(rv[i] == bs[i + k]);
                assert(bs[k as int] == self.blobs@[k as int]@);
                if i > 0 {
                    assert(bb_blob_seq(bs[k as int]) < bb_blob_seq(bs[i + k]));
                }
            }
            match self@.in_progress {
                Some(info) => {
                    assert forall|i: int|
                        0 <= i < r@.len() && r@[i]@ is Batch implies bb_blob_seq(#[trigger] r@[i]@)
                        < info.sequence_number by {
                        assert(r@[i]@ == rv[i]);
                        assert(rv[i] == bs[i + k]);
                    }
                },
                None => {},
            }
        }
        r
    }
}

/// A batch to re-apply on top of the node's state.
#[derive(Debug)]
pub struct PreferredBatchToRestore {
    pub is_in_progress: bool,
    pub batch: WithCachedTxHashes<PreferredBatchData>,
}

/// The batches among the given blobs, in order; proofs are left out.
pub open spec fn batches_among(bs: Seq<BbBlobView>) -> Seq<BbBlobView>
    decreases bs.len(),
{
    if bs.len() == 0 {
        Seq::empty()
    } else if bs.last() is Batch {
        batches_among(bs.drop_last()).push(bs.last())
    } else {
        batches_among(bs.drop_last())
    }
}

/// The batch in progress, as a blob.
pub open spec fn in_progress_view(v: BbDbView) -> BbBlobView {
    BbBlobView::Batch {
        sequence_number: v.in_progress->0.sequence_number,
        visible_slots_to_advance: v.in_progress->0.visible_slots_to_advance,
        txs: v.in_progress_txs.map_values(|t: SeqDbTxView| t.tx),
        tx_hashes: v.in_progress_txs.map_values(|t: SeqDbTxView| t.hash),
    }
}

/// The batches to re-apply on top of a node state whose next sequence
/// number is `next_sequence_number_according_to_node`: the stored ones from
/// that number on, then the one in progress, if any.
pub fn batches_to_process(db: &PreferredBbDb, next_sequence_number_according_to_node: SequenceNumber) -> (r:
    Vec<PreferredBatchToRestore>)
    requires
        db.wf(),
    ensures
        r@.map_values(|b: PreferredBatchToRestore| batch_view(b.batch)) == if db@.in_progress is Some {
            batches_among(
                db@.blobs.skip(
                    keys_below(
                        blob_keys(db@.blobs),
                        next_sequence_number_according_to_node as int,
                    ) as int,
                ),
            ).push(in_progress_view(db@))
        } else {
            batches_among(
                db@.blobs.skip(
                    keys_below(
                        blob_keys(db@.blobs),
                        next_sequence_number_according_to_node as int,
                    ) as int,
                ),
            )
        },
        forall|i: int| 0 <= i < r@.len() ==> (#[trigger] r@[i]).is_in_progress == (db@.in_progress is Some && i == r@.len() - 1),
{
    let blobs = db.all_subsequent_blobs(next_sequence_number_according_to_node);
    let ghost bv = blobs@.map_values(|b: PreferredBbDbBlob| b@);
    let mut r: Vec<PreferredBatchToRestore> = Vec::new();
    let mut rest = blobs;
    let n = rest.len();
    let mut i: usize = 0;
    assert(r@.map_values(|b: PreferredBatchToRestore| batch_view(b.batch)) =~= batches_among(
        bv.take(0),
    ));
    while i < n
        invariant
            0 <= i <= n,
            n == bv.len(),
            rest@.len() == n - i,
            forall|k: int| 0 <= k < rest@.len() ==> (#[trigger] rest@[k])@ == bv[i + k],
            r@.map_values(|b: PreferredBatchToRestore| batch_view(b.batch)) == batches_among(
                bv.take(i as int),
            ),
            forall|k: int| 0 <= k < r@.len() ==> !(#[trigger] r@[k]).is_in_progress,
        decreases n - i,
    {
        let ghost before = r@.map_values(|b: PreferredBatchToRestore| batch_view(b.batch));
        let ghost rv = rest@;
        assert(bv.take(i + 1).drop_last() =~= bv.take(i as int));
        assert(bv.take(i + 1).last() == bv[i as int]);
        let blob = rest.remove(0);
        assert(blob@ == bv[i as int]);
        match blob {
            PreferredBbDbBlob::Batch(batch) => {
                let ghost v = batch_view(batch);
                r.push(PreferredBatchToRestore { is_in_progress: false, batch });
                assert(r@.map_values(|b: PreferredBatchToRestore| batch_view(b.batch)) =~= before.push(v));
            },
            PreferredBbDbBlob::Proof(_) => {},
        }
        assert forall|k: int| 0 <= k < rest@.len() implies (#[trigger] rest@[k])@ == bv[i + 1 + k] by {
            assert(rest@[k] == rv[k + 1]);
        }
        i = i + 1;
    }
    assert(bv.take(n as int) =~= bv);
    let ghost before = r@.map_values(|b: PreferredBatchToRestore| batch_view(b.batch));
    if let Some(batch) = db.in_progress_batch_opt() {
        let ghost v = batch_view(batch);
        r.push(PreferredBatchToRestore { is_in_progress: true, batch });
        assert(r@.map_values(|b: PreferredBatchToRestore| batch_view(b.batch)) =~= before.push(v));
    }
    r
}

/// One change of the store: it either handed out the sequence number
/// `handed` (it was the next one, and the next one moved one further), or
/// handed none out and did not lower the next one. Every operation of
/// [`PreferredBbDb`] is such a change.
pub open spec fn is_store_step(before: BbDbView, after: BbDbView, handed: Option<SequenceNumber>) -> bool {
    match handed {
        Some(n) => n == before.next_sequence_number && after.next_sequence_number == n + 1,
        None => after.next_sequence_number >= before.next_sequence_number,
    }
}

/// Along a run of changes, the next sequence number never goes down.
pub proof fn lemma_next_sequence_number_never_decreases(
    states: Seq<BbDbView>,
    handed: Seq<Option<SequenceNumber>>,
    i: int,
    j: int,
)
    requires
        states.len() == handed.len() + 1,
        forall|k: int| 0 <= k < handed.len() ==> is_store_step(states[k], states[k + 1], #[trigger] handed[k]),
        0 <= i <= j < states.len(),
    ensures
        states[i].next_sequence_number <= states[j].next_sequence_number,
    decreases j - i,
{
    if i < j {
        lemma_next_sequence_number_never_decreases(states, handed, i, j - 1);
        assert(is_store_step(states[j - 1], states[j], handed[j - 1]));
    }
}

/// The sequence numbers the store hands out, one after the other, strictly
/// increase, whatever happens in between.
pub proof fn lemma_handed_out_numbers_increase(
    states: Seq<BbDbView>,
    handed: Seq<Option<SequenceNumber>>,
    i: int,
    j: int,
)
    requires
        states.len() == handed.len() + 1,
        forall|k: int| 0 <= k < handed.len() ==> is_store_step(states[k], states[k + 1], #[trigger] handed[k]),
        0 <= i < j < handed.len(),
        handed[i] is Some,
        handed[j] is Some,
    ensures
        handed[i]->0 < handed[j]->0,
{
    assert(is_store_step(states[i], states[i + 1], handed[i]));
    assert(is_store_step(states[j], states[j + 1], handed[j]));
    lemma_next_sequence_number_never_decreases(states, handed, i + 1, j);
}

} // verus!
