//! The values the sequencer's interface exchanges with its users and with
//! the rest of the node.
use vstd::prelude::*;

use crate::preferred::bb_db::{BbBlobView, BbDbView, PreferredBbDb};
use crate::types::{FullyBakedTx, TxHash, WithCachedTxHashes};

verus! {

/// Empty confirmation data, for sequencers that confirm nothing more than
/// the acceptance itself; it is shown as an empty JSON object.
#[derive(Debug, Clone, Copy, PartialEq, Eq, Structural)]
pub struct EmptyConfirmation {}

/// Raw bytes, carried as base64 text in JSON.
#[derive(Debug, Clone)]
pub struct Base64Blob {
    pub blob: Vec<u8>,
}

/// The body of a request to accept a transaction.
#[derive(Debug, Clone)]
pub struct AcceptTx {
    pub body: Base64Blob,
}

/// The body of a request to publish a batch of the given transactions.
#[derive(Debug, Clone)]
pub struct SubmitBatch {
    pub transactions: Vec<Base64Blob>,
}

impl AcceptTx {
    /// The transaction the request carries.
    pub fn into_tx(self) -> (r: FullyBakedTx)
        ensures
            r.data@ == self.body.blob@,
    {
        FullyBakedTx::new(self.body.blob)
    }
}

/// A transaction accepted by the batch builder.
#[derive(Debug, Clone)]
pub struct AcceptedTx<C> {
    /// The transaction, as it will appear on-chain.
    pub tx: FullyBakedTx,
    /// Its hash.
    pub tx_hash: TxHash,
    /// Confirmation data: nothing, a receipt, or other data.
    pub confirmation: C,
}

impl<C> AcceptedTx<C> {
    /// The same accepted transaction, with its confirmation data mapped.
    pub fn map_confirmation<D, F: FnOnce(C) -> D>(self, f: F) -> (r: AcceptedTx<D>)
        requires
            f.requires((self.confirmation,)),
        ensures
            r.tx == self.tx,
            r.tx_hash == self.tx_hash,
            f.ensures((self.confirmation,), r.confirmation),
    {
        AcceptedTx { tx: self.tx, tx_hash: self.tx_hash, confirmation: f(self.confirmation) }
    }
}

/// A blob waiting to be sent to the DA: a batch with the hashes of its
/// transactions, or a proof.
#[derive(Debug)]
pub enum BlobToSend {
    Batch(WithCachedTxHashes<Vec<u8>>),
    Proof(Vec<u8>),
}

/// The batches among the given stored blobs, in the order they are stored:
/// those are sent again when the blob sender starts; proofs are not.
pub open spec fn batches_among(blobs: Seq<BlobToSend>) -> Seq<WithCachedTxHashes<Vec<u8>>>
    decreases blobs.len(),
{
    if blobs.len() == 0 {
        Seq::empty()
    } else {
        match blobs[0] {
            BlobToSend::Batch(b) => seq![b] + batches_among(blobs.drop_first()),
            BlobToSend::Proof(_) => batches_among(blobs.drop_first()),
        }
    }
}

/// The stored blobs to publish again when the blob sender starts: every
/// batch, in stored order; proof blobs are left where they are.
pub fn batches_to_resume(blobs: Vec<BlobToSend>) -> (r: Vec<WithCachedTxHashes<Vec<u8>>>)
    ensures
        r@ == batches_among(blobs@),
{
    let ghost all = blobs@;
    let mut blobs = blobs;
    let mut r: Vec<WithCachedTxHashes<Vec<u8>>> = Vec::new();
    while blobs.len() > 0
        invariant
            r@ + batches_among(blobs@) == batches_among(all),
        decreases blobs@.len(),
    {
        let ghost before = blobs@;
        let b = blobs.remove(0);
        assert(blobs@ =~= before.drop_first());
        match b {
            BlobToSend::Batch(batch) => {
                let ghost pushed = batch;
                r.push(batch);
                assert(r@ + batches_among(blobs@) =~= (r@.drop_last() + (seq![pushed]
                    + batches_among(blobs@))));
            },
            BlobToSend::Proof(_) => {},
        }
    }
    r
}

/// Something that publishes proof blobs to the DA.
pub trait ProofBlobSender {
    /// Publishes a proof blob; the error's text says what went wrong.
    fn publish_proof_blob(&mut self, proof_blob: Vec<u8>) -> Result<(), String>;
}

/// Something that gives sequence numbers to preferred proof blobs.
/// Subsequent calls must return different, greater values.
pub trait SequenceNumberProvider {
    /// The sequence number for a new preferred proof blob.
    fn generate_sequence_number(&mut self, preferred_blob: &[u8]) -> Result<u64, String>;
}

/// The store once a proof blob of the given bytes is stored under the next
/// sequence number, which then moves on by one.
pub open spec fn with_proof_blob(v: BbDbView, data: Seq<u8>) -> BbDbView {
    BbDbView {
        next_sequence_number: (v.next_sequence_number + 1) as u64,
        blobs: v.blobs.push(BbBlobView::Proof { sequence_number: v.next_sequence_number, data }),
        ..v
    }
}

/// Two sequence numbers asked for one after the other, with nothing in
/// between, are consecutive, and each blob is stored under its own number.
pub proof fn lemma_consecutive_sequence_numbers(v: BbDbView, first: Seq<u8>, second: Seq<u8>)
    requires
        v.next_sequence_number + 1 < u64::MAX,
    ensures
        with_proof_blob(v, first).next_sequence_number == v.next_sequence_number + 1,
        with_proof_blob(with_proof_blob(v, first), second).blobs == v.blobs + seq![
            BbBlobView::Proof { sequence_number: v.next_sequence_number, data: first },
            BbBlobView::Proof { sequence_number: (v.next_sequence_number + 1) as u64, data: second },
        ],
{
    assert(with_proof_blob(with_proof_blob(v, first), second).blobs =~= v.blobs + seq![
        BbBlobView::Proof { sequence_number: v.next_sequence_number, data: first },
        BbBlobView::Proof { sequence_number: (v.next_sequence_number + 1) as u64, data: second },
    ]);
}

impl SequenceNumberProvider for PreferredBbDb {
    /// Stores the blob as a proof with the next sequence number, which is
    /// returned; the numbers are exhausted at the largest one.
    fn generate_sequence_number(&mut self, preferred_blob: &[u8]) -> (r: Result<u64, String>)
        ensures
            old(self)@.next_sequence_number < u64::MAX ==> {
                &&& old(self).wf() ==> final(self).wf()
                &&& r == Ok::<u64, String>(old(self)@.next_sequence_number)
                &&& final(self)@ == with_proof_blob(old(self)@, preferred_blob@)
            },
            old(self)@.next_sequence_number == u64::MAX ==> r is Err && *final(self) == *old(self),
    {
        if self.next_sequence_number() == u64::MAX {
            return Err("No sequence number can be given".to_owned());
        }
        let data = slice_to_vec(preferred_blob);
        Ok(self.insert_proof_blob(data))
    }
}

/// A copy of the bytes.
fn slice_to_vec(s: &[u8]) -> (r: Vec<u8>)
    ensures
        r@ == s@,
{
    let mut v: Vec<u8> = Vec::new();
    let mut i: usize = 0;
    while i < s.len()
        invariant
            0 <= i <= s@.len(),
            v@ == s@.take(i as int),
        decreases s@.len() - i,
    {
        v.push(s[i]);
        i = i + 1;
        assert(v@ =~= s@.take(i as int));
    }
    assert(s@.take(s@.len() as int) =~= s@);
    v
}

/// The associated types of a sequencer, given explicitly: its batch
/// builder, DA service, batch and transaction receipts, and events.
pub struct GenericSequencerSpec<B, Da, BatchReceipt, TxReceipt, Event>(
    pub std::marker::PhantomData<(B, Da, BatchReceipt, TxReceipt, Event)>,
);

impl<B, Da, BatchReceipt, TxReceipt, Event> GenericSequencerSpec<B, Da, BatchReceipt, TxReceipt, Event> {
    /// The specification.
    pub fn new() -> Self {
        GenericSequencerSpec(std::marker::PhantomData)
    }
}

/// Whether a sender may submit a call through the sequencer: either the
/// call can never change the sequencer's configuration, or the sender is
/// one of the admins.
pub fn sender_is_allowed(call_is_safe_for_sequencer: bool, sender: &Vec<u8>, admins: &Vec<Vec<u8>>) -> (r:
    bool)
    ensures
        r == (call_is_safe_for_sequencer || exists|i: int|
            0 <= i < admins@.len() && #[trigger] admins@[i]@ == sender@),
{
    if call_is_safe_for_sequencer {
        return true;
    }
    let mut i: usize = 0;
    while i < admins.len()
        invariant
            0 <= i <= admins@.len(),
            forall|j: int| 0 <= j < i ==> #[trigger] admins@[j]@ != sender@,
        decreases admins@.len() - i,
    {
        if bytes_eq(&admins[i], sender) {
            return true;
        }
        i = i + 1;
    }
    false
}

/// Whether two byte strings are equal.
fn bytes_eq(a: &Vec<u8>, b: &Vec<u8>) -> (r: bool)
    ensures
        r == (a@ == b@),
{
    if a.len() != b.len() {
        return false;
    }
    let mut i: usize = 0;
    while i < a.len()
        invariant
            0 <= i <= a@.len(),
            a@.len() == b@.len(),
            forall|j: int| 0 <= j < i ==> a@[j] == b@[j],
        decreases a@.len() - i,
    {
        if a[i] != b[i] {
            return false;
        }
        i = i + 1;
    }
    assert(a@ =~= b@);
    true
}

} // verus!
