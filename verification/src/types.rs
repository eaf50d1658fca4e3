//! Plain-value types shared by the sequencer's modules.
use vstd::prelude::*;

verus! {

/// The hash of a transaction.
pub type TxHash = [u8; 32];

/// Byte-wise equality of two transaction hashes.
pub fn tx_hash_eq(a: &TxHash, b: &TxHash) -> (r: bool)
    ensures
        r == (a@ == b@),
{
    let mut i: usize = 0;
    while i < 32
        invariant
            0 <= i <= 32,
            a@.len() == 32,
            b@.len() == 32,
            forall|j: int| 0 <= j < i ==> a@[j] == b@[j],
        decreases 32 - i,
    {
        if a[i] != b[i] {
            assert(a@[i as int] != b@[i as int]);
            return false;
        }
        i = i + 1;
    }
    assert(a@ =~= b@);
    true
}

/// A transaction in the form that ends up on-chain.
#[derive(Clone, Debug)]
pub struct FullyBakedTx {
    /// The encoded transaction bytes.
    pub data: Vec<u8>,
}

impl FullyBakedTx {
    /// Wraps the given bytes.
    pub fn new(data: Vec<u8>) -> (r: Self)
        ensures
            r.data@ == data@,
    {
        FullyBakedTx { data }
    }
}

/// A value together with the hashes of the transactions it holds.
#[derive(Debug)]
pub struct WithCachedTxHashes<I> {
    /// The value.
    pub inner: I,
    /// The hashes of its transactions, in order.
    pub tx_hashes: Vec<TxHash>,
}

/// Why the sequencer is not ready to accept transactions.
#[derive(Clone, Copy, Debug, PartialEq, Eq, Structural)]
pub enum SequencerNotReadyDetails {
    /// The sequencer is still starting up.
    Startup,
    /// The node is catching up to the chain tip.
    Syncing { target_da_height: u64, synced_da_height: u64 },
    /// The sequencer is waiting for the DA to finalize more slots.
    WaitingOnDa { finalized_slot_number: u64, needed_finalized_slot_number: u64 },
    /// The sequencer is waiting for the node to catch up to it.
    WaitingOnNode {
        current_node_slot_number: u64,
        current_sequencer_slot_number: u64,
        current_delta: u64,
        max_allowed_delta: u64,
    },
    /// Too many blobs are being submitted to the DA at the same time.
    WaitingOnBlobSender { max_concurrent_blobs: usize, nb_of_blobs_in_flight: usize },
    /// The preferred sequencer is recovering from a lag behind the chain.
    PreferredSequencerRecovering,
    /// The preferred sequencer reached the height it was configured to stop at.
    PreferredSequencerAtStopHeight { current_height: u64, height_to_stop_at: u64 },
    /// The sequencer runs as a replica of another one.
    ReplicaMode,
}

} // verus!
