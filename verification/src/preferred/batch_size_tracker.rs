//! Keeps the size a preferred batch will have once serialized.
use vstd::prelude::*;

verus! {

/// The bytes a serialized batch takes before its transactions: 8 for its
/// sequence number, 1 for the slots it advances, 4 for the length of its
/// transaction list.
pub const BATCH_SIZE_OVERHEAD: usize = 13;

/// The bytes the length prefix of each serialized transaction takes.
pub const PER_TX_BORSH_OVERHEAD: usize = 4;

/// The size of a serialized batch whose transactions have the given lengths:
/// a sequence number (8 bytes), the slots it advances (1 byte), and a list of
/// byte strings (a 4-byte count, then for each a 4-byte length and its bytes).
pub open spec fn serialized_batch_len(tx_sizes: Seq<nat>) -> nat
    decreases tx_sizes.len(),
{
    if tx_sizes.len() == 0 {
        8 + 1 + 4
    } else {
        serialized_batch_len(tx_sizes.drop_last()) + 4 + tx_sizes.last()
    }
}

/// The tracked size after adding transactions of the given lengths, one
/// after the other, to a size of `start`.
pub open spec fn size_after_adding(start: nat, tx_sizes: Seq<nat>) -> nat
    decreases tx_sizes.len(),
{
    if tx_sizes.len() == 0 {
        start
    } else {
        size_after_adding(start, tx_sizes.drop_last()) + tx_sizes.last() + (PER_TX_BORSH_OVERHEAD as nat)
    }
}

/// Counts the serialized size of a batch while transactions are added to it.
#[derive(Debug)]
pub struct BatchSizeTracker {
    /// The largest size the batch may reach.
    pub max_batch_size: usize,
    /// The serialized size of the batch as it stands.
    pub current_batch_size: usize,
}

impl BatchSizeTracker {
    /// A tracker for an empty batch.
    pub fn new(max_batch_size: usize) -> (r: Self)
        ensures
            r.max_batch_size == max_batch_size,
            r.current_batch_size == BATCH_SIZE_OVERHEAD,
    {
        BatchSizeTracker { max_batch_size, current_batch_size: BATCH_SIZE_OVERHEAD }
    }

    /// The bytes a transaction of `tx_size` bytes takes in a serialized batch.
    pub fn serialized_tx_size(tx_size: usize) -> (r: usize)
        requires
            tx_size + PER_TX_BORSH_OVERHEAD <= usize::MAX,
        ensures
            r == tx_size + PER_TX_BORSH_OVERHEAD,
    {
        tx_size + PER_TX_BORSH_OVERHEAD
    }

    /// Whether a transaction of `tx_size` bytes still fits in the batch.
    pub fn can_fit_tx(&self, tx_size: usize) -> (r: bool)
        requires
            self.current_batch_size + tx_size + PER_TX_BORSH_OVERHEAD <= usize::MAX,
        ensures
            r == (self.current_batch_size + tx_size + PER_TX_BORSH_OVERHEAD <= self.max_batch_size),
    {
        self.current_batch_size + Self::serialized_tx_size(tx_size) <= self.max_batch_size
    }

    /// Counts a transaction of `tx_size` bytes into the batch.
    pub fn add_tx(&mut self, tx_size: usize)
        requires
            old(self).current_batch_size + tx_size + PER_TX_BORSH_OVERHEAD <= usize::MAX,
        ensures
            final(self).max_batch_size == old(self).max_batch_size,
            final(self).current_batch_size == old(self).current_batch_size + tx_size
                + PER_TX_BORSH_OVERHEAD,
    {
        self.current_batch_size = self.current_batch_size + Self::serialized_tx_size(tx_size);
    }
}

/// A tracker that starts empty and counts transactions of the given lengths
/// one by one holds exactly the size of the serialized batch of those
/// transactions.
pub proof fn lemma_tracker_counts_serialized_batch(tx_sizes: Seq<nat>)
    ensures
        size_after_adding(BATCH_SIZE_OVERHEAD as nat, tx_sizes) == serialized_batch_len(tx_sizes),
    decreases tx_sizes.len(),
{
    if tx_sizes.len() > 0 {
        lemma_tracker_counts_serialized_batch(tx_sizes.drop_last());
    }
}

/// Adding transactions never makes the tracked size smaller: what the first
/// `k` of them add up to is at most what all of them add up to.
proof fn lemma_size_after_adding_prefix(start: nat, tx_sizes: Seq<nat>, k: int)
    requires
        0 <= k <= tx_sizes.len(),
    ensures
        size_after_adding(start, tx_sizes.take(k)) <= size_after_adding(start, tx_sizes),
    decreases tx_sizes.len(),
{
    if k == tx_sizes.len() {
        assert(tx_sizes.take(k) =~= tx_sizes);
    } else {
        let p = tx_sizes.drop_last();
        assert(tx_sizes.take(k) =~= p.take(k));
        lemma_size_after_adding_prefix(start, p, k);
    }
}

/// A tracker whose limit is the serialized size of a batch of transactions
/// of the given lengths, counting those transactions one by one, finds that
/// each of them still fits before it is counted, ends at exactly its limit,
/// and then has no room left for a transaction of even one byte.
pub proof fn lemma_tracker_fills_exactly(tx_sizes: Seq<nat>)
    ensures
        forall|k: int|
            0 <= k < tx_sizes.len() ==> size_after_adding(BATCH_SIZE_OVERHEAD as nat, #[trigger] tx_sizes.take(k))
                + tx_sizes[k] + PER_TX_BORSH_OVERHEAD <= serialized_batch_len(tx_sizes),
        size_after_adding(BATCH_SIZE_OVERHEAD as nat, tx_sizes) == serialized_batch_len(tx_sizes),
        size_after_adding(BATCH_SIZE_OVERHEAD as nat, tx_sizes) + 1 + PER_TX_BORSH_OVERHEAD
            > serialized_batch_len(tx_sizes),
{
    lemma_tracker_counts_serialized_batch(tx_sizes);
    let st = BATCH_SIZE_OVERHEAD as nat;
    assert forall|k: int| 0 <= k < tx_sizes.len() implies size_after_adding(st, #[trigger] tx_sizes.take(k))
        + tx_sizes[k] + PER_TX_BORSH_OVERHEAD <= serialized_batch_len(tx_sizes) by {
        let t = tx_sizes.take(k + 1);
        assert(t.drop_last() =~= tx_sizes.take(k));
        assert(t.last() == tx_sizes[k]);
        lemma_size_after_adding_prefix(st, tx_sizes, k + 1);
    }
}

} // verus!
