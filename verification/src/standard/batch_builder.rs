//! How the standard sequencer assembles a batch out of its mempool.
//!
//! Transactions are taken in the mempool's fair order (largest first, then
//! least recent first); each one is tried against the rollup state by the
//! caller, who reports the outcome back. Transactions that can never be
//! included are dropped from the mempool; those that merely can't be included
//! right now are skipped.
use vstd::prelude::*;
use vstd::string::*;

use crate::standard::mempool::{
    cursor_lt, cursor_of, hashes_unique, is_next_after, lemma_cursor_lt_irreflexive,
    lemma_without_hash_members, without_hash, Mempool, MempoolCursor,
    SeqDbTx, SeqDbTxView, TxDropNotice,
};
use crate::types::{FullyBakedTx, TxHash, WithCachedTxHashes};

verus! {

/// Configuration of the standard batch builder.
#[derive(Debug, Clone, Default, PartialEq, Eq)]
pub struct StdBatchBuilderConfig {
    /// Maximum number of transactions in the mempool. Once this limit is
    /// reached, the oldest transactions are evicted. Never zero.
    pub mempool_max_txs_count: Option<usize>,
    /// Maximum size of a batch, in bytes. Never zero.
    pub max_batch_size_bytes: Option<usize>,
}

/// The mempool capacity used when none is configured.
pub fn default_mempool_max_txs_count() -> (r: usize)
    ensures
        r == 100,
{
    100
}

/// The batch size limit used when none is configured: 1 MiB.
pub fn default_max_batch_size_bytes() -> (r: usize)
    ensures
        r == 1024 * 1024,
{
    1024 * 1024
}

/// The configured value, or the default one.
pub open spec fn spec_max_batch_size_bytes(config: StdBatchBuilderConfig) -> usize {
    match config.max_batch_size_bytes {
        Some(n) => n,
        None => (1024 * 1024) as usize,
    }
}

/// The configured value, or the default one.
pub open spec fn spec_mempool_max_txs_count(config: StdBatchBuilderConfig) -> usize {
    match config.mempool_max_txs_count {
        Some(n) => n,
        None => 100,
    }
}

impl StdBatchBuilderConfig {
    /// The maximum size of a batch.
    pub fn max_batch_size_bytes(&self) -> (r: usize)
        ensures
            r == spec_max_batch_size_bytes(*self),
    {
        match self.max_batch_size_bytes {
            Some(n) => n,
            None => default_max_batch_size_bytes(),
        }
    }

    /// The capacity of the mempool.
    pub fn mempool_max_txs_count(&self) -> (r: usize)
        ensures
            r == spec_mempool_max_txs_count(*self),
    {
        match self.mempool_max_txs_count {
            Some(n) => n,
            None => default_mempool_max_txs_count(),
        }
    }
}

/// What happened when a transaction taken from the mempool was tried against
/// the rollup state.
#[derive(Debug)]
pub enum AddTxOutcome {
    /// The transaction was applied and executed successfully.
    Included,
    /// The transaction was applied but its execution failed.
    Reverted,
    /// Authentication failed in a way that can never be fixed.
    FatallyInvalid,
    /// The current state of the rollup doesn't allow the transaction now
    /// (a sequencer error, not enough gas for the checks, or a processing
    /// error); it may be included later.
    NotIncludableNow,
    /// The transaction invokes the named module, which may modify sequencer
    /// configurations, and its sender is not an admin.
    PermissionDenied { module: String },
}

/// The reason given when a transaction is dropped because its sender lacks
/// the permissions to invoke `module`.
pub open spec fn permission_denied_reason(module: Seq<char>) -> Seq<char> {
    "The transaction was rejected because the it invokes the `"@ + module
        + "` module which may modify sequencer configurations. You need admin permissions on the sequencer to call this method."@
}

/// Each transaction comes strictly after the previous ones in the mempool's
/// iteration order; in particular, no transaction occurs twice.
pub open spec fn included_in_order(txs: Seq<SeqDbTxView>) -> bool {
    forall|i: int, j: int|
        0 <= i < j < txs.len() ==> cursor_lt(#[trigger] cursor_of(txs[i]), #[trigger] cursor_of(txs[j]))
}

/// `t` comes after every transaction of `batch` in the mempool's order.
pub open spec fn after_all(batch: Seq<SeqDbTxView>, t: SeqDbTxView) -> bool {
    forall|k: int| 0 <= k < batch.len() ==> cursor_lt(#[trigger] cursor_of(batch[k]), cursor_of(t))
}

/// One step of an assembly, from the batch `b` and the mempool `m` to `b2`
/// and `m2`: the transaction `t`, which comes after every included one, was
/// tried, and then included, skipped, or dropped from the mempool.
pub open spec fn assembly_step_with(
    b: Seq<SeqDbTxView>,
    m: Seq<SeqDbTxView>,
    t: SeqDbTxView,
    b2: Seq<SeqDbTxView>,
    m2: Seq<SeqDbTxView>,
) -> bool {
    &&& after_all(b, t)
    &&& {
        ||| b2 == b.push(t) && m2 == m
        ||| b2 == b && m2 == m
        ||| b2 == b && m2 == without_hash(m, t.hash)
    }
}

/// One step of an assembly whose tried transaction is one of the mempool.
pub open spec fn assembly_step(
    b: Seq<SeqDbTxView>,
    m: Seq<SeqDbTxView>,
    b2: Seq<SeqDbTxView>,
    m2: Seq<SeqDbTxView>,
) -> bool {
    exists|i: int| 0 <= i < m.len() && #[trigger] assembly_step_with(b, m, m[i], b2, m2)
}

/// The `k`-th step of the run of batches `bs` and mempools `ms`.
pub open spec fn run_step_at(bs: Seq<Seq<SeqDbTxView>>, ms: Seq<Seq<SeqDbTxView>>, k: int) -> bool {
    assembly_step(bs[k], ms[k], bs[k + 1], ms[k + 1])
}

/// A run of an assembly: the batches and mempools after each step, starting
/// from an empty batch.
pub open spec fn assembly_run(bs: Seq<Seq<SeqDbTxView>>, ms: Seq<Seq<SeqDbTxView>>) -> bool {
    &&& bs.len() == ms.len()
    &&& bs.len() > 0
    &&& bs[0].len() == 0
    &&& forall|k: int| 0 <= k < bs.len() - 1 ==> #[trigger] run_step_at(bs, ms, k)
}

/// What holds after every step of a run.
pub open spec fn run_invariant(m0: Seq<SeqDbTxView>, b: Seq<SeqDbTxView>, m: Seq<SeqDbTxView>) -> bool {
    &&& included_in_order(b)
    &&& hashes_unique(m)
    &&& forall|t: SeqDbTxView| #[trigger] m.contains(t) ==> m0.contains(t)
    &&& forall|i: int| 0 <= i < b.len() ==> m.contains(#[trigger] b[i])
}

/// A step keeps the run's invariant.
proof fn lemma_step_keeps_invariant(
    m0: Seq<SeqDbTxView>,
    b: Seq<SeqDbTxView>,
    m: Seq<SeqDbTxView>,
    b2: Seq<SeqDbTxView>,
    m2: Seq<SeqDbTxView>,
)
    requires
        run_invariant(m0, b, m),
        assembly_step(b, m, b2, m2),
    ensures
        run_invariant(m0, b2, m2),
{
    let i = choose|i: int| 0 <= i < m.len() && #[trigger] assembly_step_with(b, m, m[i], b2, m2);
    let t = m[i];
    lemma_without_hash_members(m, t.hash);
    if b2 == b.push(t) && m2 == m {
        assert forall|x: int, y: int| 0 <= x < y < b2.len() implies cursor_lt(
            #[trigger] cursor_of(b2[x]),
            #[trigger] cursor_of(b2[y]),
        ) by {
            assert(b2[x] == b[x]);
            if y < b.len() {
                assert(b2[y] == b[y]);
            }
        }
        assert forall|x: int| 0 <= x < b2.len() implies m2.contains(#[trigger] b2[x]) by {
            if x < b.len() {
                assert(b2[x] == b[x]);
            } else {
                assert(m[i] == t);
            }
        }
    } else if b2 == b && m2 == without_hash(m, t.hash) {
        assert forall|x: int| 0 <= x < b2.len() implies m2.contains(#[trigger] b2[x]) by {
            let u = b[x];
            assert(m.contains(u));
            if u.hash == t.hash {
                let p = choose|p: int| 0 <= p < m.len() && m[p] == u;
                assert(m[p].hash == m[i].hash);
                assert(p == i);
                lemma_cursor_lt_irreflexive(cursor_of(u));
                assert(cursor_lt(cursor_of(b[x]), cursor_of(t)));
            }
        }
    }
}

/// The run's invariant holds after each of its steps.
proof fn lemma_run_invariant(bs: Seq<Seq<SeqDbTxView>>, ms: Seq<Seq<SeqDbTxView>>)
    requires
        assembly_run(bs, ms),
        hashes_unique(ms[0]),
    ensures
        run_invariant(ms[0], bs.last(), ms.last()),
    decreases bs.len(),
{
    if bs.len() == 1 {
    } else {
        let n = bs.len() - 1;
        let pb = bs.drop_last();
        let pm = ms.drop_last();
        assert forall|k: int| 0 <= k < pb.len() - 1 implies #[trigger] run_step_at(pb, pm, k) by {
            assert(run_step_at(bs, ms, k));
        }
        lemma_run_invariant(pb, pm);
        assert(run_step_at(bs, ms, n - 1));
        lemma_step_keeps_invariant(ms[0], bs[n - 1], ms[n - 1], bs[n], ms[n]);
    }
}

/// Over any run of an assembly out of a mempool with unique hashes, the
/// batch consists of distinct transactions of the starting mempool, in the
/// mempool's order, none of which was dropped from the mempool during the
/// run.
pub proof fn lemma_assembly_run(bs: Seq<Seq<SeqDbTxView>>, ms: Seq<Seq<SeqDbTxView>>)
    requires
        assembly_run(bs, ms),
        hashes_unique(ms[0]),
    ensures
        included_in_order(bs.last()),
        forall|i: int|
            0 <= i < bs.last().len() ==> ms[0].contains(#[trigger] bs.last()[i]) && ms.last().contains(
                bs.last()[i],
            ),
        forall|i: int, j: int|
            0 <= i < j < bs.last().len() ==> #[trigger] bs.last()[i].hash != #[trigger] bs.last()[j].hash,
{
    lemma_run_invariant(bs, ms);
    let b = bs.last();
    let m0 = ms[0];
    assert forall|i: int, j: int| 0 <= i < j < b.len() implies #[trigger] b[i].hash
        != #[trigger] b[j].hash by {
        assert(cursor_lt(cursor_of(b[i]), cursor_of(b[j])));
        lemma_cursor_lt_irreflexive(cursor_of(b[i]));
        assert(ms.last().contains(b[i]) && ms.last().contains(b[j]));
        assert(m0.contains(b[i]) && m0.contains(b[j]));
        let p = choose|p: int| 0 <= p < m0.len() && m0[p] == b[i];
        let q = choose|q: int| 0 <= q < m0.len() && m0[q] == b[j];
        if b[i].hash == b[j].hash {
            assert(p == q);
        }
    }
}

/// The state of a batch being assembled.
pub struct BatchAssembly {
    max_batch_size_bytes: usize,
    current_batch_size_in_bytes: usize,
    cursor: MempoolCursor,
    txs: Vec<SeqDbTx>,
    finished: bool,
}

/// The sum of the sizes of the given transactions.
pub open spec fn total_size(txs: Seq<SeqDbTxView>) -> nat
    decreases txs.len(),
{
    if txs.len() == 0 {
        0
    } else {
        total_size(txs.drop_last()) + txs.last().tx.len()
    }
}

/// The cursor that skips every transaction too big for the space left.
pub open spec fn spec_mempool_cursor(max: usize, current: usize) -> MempoolCursor {
    MempoolCursor {
        tx_size_in_bytes: if max >= current { (max - current) as usize } else { 0 },
        uuid_v7: 0,
    }
}

/// `t` does not fit in the space a batch of `current` bytes out of `max`
/// leaves.
pub open spec fn too_big_for_space(t: SeqDbTxView, max: usize, current: usize) -> bool {
    current + t.tx.len() > max
}

/// The transactions the skip cursor of a batch of `current` bytes out of
/// `max` lets through are exactly those that fit in the space left (but one
/// that fills it exactly and has identifier 0): none too big comes after
/// it, every other one does; when the batch is over its limit, only empty
/// transactions come after it.
pub proof fn lemma_mempool_cursor_skips_exactly(max: usize, current: usize)
    ensures
        ({
            let c = spec_mempool_cursor(max, current);
            &&& current <= max ==> forall|t: SeqDbTxView|
                t.tx.len() <= usize::MAX && #[trigger] too_big_for_space(t, max, current) ==> !cursor_lt(
                    c,
                    cursor_of(t),
                )
            &&& current <= max ==> forall|t: SeqDbTxView|
                t.tx.len() <= usize::MAX && !#[trigger] too_big_for_space(t, max, current) && (current
                    + t.tx.len() < max || t.uuid_v7 > 0) ==> cursor_lt(c, cursor_of(t))
            &&& current > max ==> forall|t: SeqDbTxView|
                t.tx.len() <= usize::MAX && #[trigger] t.tx.len() > 0 ==> !cursor_lt(c, cursor_of(t))
        }),
{
}

/// The cursor that skips every transaction bigger than the space left in a
/// batch of `current` bytes out of at most `max`.
pub fn mempool_cursor(max: usize, current: usize) -> (r: MempoolCursor)
    ensures
        r == spec_mempool_cursor(max, current),
        current <= max ==> forall|t: SeqDbTxView|
            t.tx.len() <= usize::MAX && #[trigger] too_big_for_space(t, max, current) ==> !cursor_lt(
                r,
                cursor_of(t),
            ),
        current <= max ==> forall|t: SeqDbTxView|
            t.tx.len() <= usize::MAX && !#[trigger] too_big_for_space(t, max, current) && (current
                + t.tx.len() < max || t.uuid_v7 > 0) ==> cursor_lt(r, cursor_of(t)),
{
    proof {
        lemma_mempool_cursor_skips_exactly(max, current);
    }
    MempoolCursor::new(max.saturating_sub(current))
}

impl View for BatchAssembly {
    type V = Seq<SeqDbTxView>;

    closed spec fn view(&self) -> Seq<SeqDbTxView> {
        self.txs@.map_values(|t: SeqDbTx| t@)
    }
}

impl BatchAssembly {
    /// The largest a batch may grow.
    pub closed spec fn max_size(&self) -> usize {
        self.max_batch_size_bytes
    }

    /// The size of the transactions included so far.
    pub closed spec fn current_size(&self) -> usize {
        self.current_batch_size_in_bytes
    }

    /// Where the iteration over the mempool stands.
    pub closed spec fn cursor(&self) -> MempoolCursor {
        self.cursor
    }

    /// Whether no more transactions will be taken.
    pub closed spec fn is_finished(&self) -> bool {
        self.finished
    }

    /// The internal invariant: the included transactions fit in the batch
    /// and none of them comes after the cursor.
    pub closed spec fn wf(&self) -> bool {
        &&& self.current_batch_size_in_bytes == total_size(self@)
        &&& self.current_batch_size_in_bytes <= self.max_batch_size_bytes
        &&& forall|i: int|
            0 <= i < self@.len() ==> !cursor_lt(self.cursor, #[trigger] cursor_of(self@[i]))
        &&& included_in_order(self@)
    }

    /// What callers may rely on whenever the invariant holds.
    pub proof fn lemma_wf(&self)
        requires
            self.wf(),
        ensures
            self.current_size() == total_size(self@),
            total_size(self@) <= self.max_size(),
            included_in_order(self@),
    {
    }

    /// Starts assembling a batch of at most `max_batch_size_bytes` bytes.
    pub fn new(max_batch_size_bytes: usize) -> (r: Self)
        ensures
            r.wf(),
            r@.len() == 0,
            r.max_size() == max_batch_size_bytes,
            r.current_size() == 0,
            r.cursor() == spec_mempool_cursor(max_batch_size_bytes, 0),
            !r.is_finished(),
    {
        let r = BatchAssembly {
            max_batch_size_bytes,
            current_batch_size_in_bytes: 0,
            cursor: mempool_cursor(max_batch_size_bytes, 0),
            txs: Vec::new(),
            finished: false,
        };
        assert(r@ =~= Seq::<SeqDbTxView>::empty());
        r
    }

    /// The next transaction to try: the first one after the cursor, unless
    /// it doesn't fit in the space left, in which case the assembly is over.
    pub fn next_candidate(&mut self, mempool: &Mempool) -> (r: Option<SeqDbTx>)
        requires
            old(self).wf(),
            mempool.wf(),
        ensures
            final(self).wf(),
            final(self)@ == old(self)@,
            final(self).max_size() == old(self).max_size(),
            final(self).current_size() == old(self).current_size(),
            r matches Some(t) ==> mempool@.contains(t@),
            old(self).is_finished() ==> r is None && *final(self) == *old(self),
            !old(self).is_finished() ==> match r {
                Some(t) => exists|i: int|
                    is_next_after(mempool@, old(self).cursor(), i) && t@ == #[trigger] mempool@[i]
                        && final(self).cursor() == cursor_of(mempool@[i])
                        && old(self).current_size() + t@.tx.len() <= old(self).max_size()
                        && !final(self).is_finished()
                        && forall|k: int|
                        0 <= k < old(self)@.len() ==> cursor_lt(
                            #[trigger] cursor_of(old(self)@[k]),
                            cursor_of(t@),
                        ),
                None => final(self).is_finished() && (
                // Either nothing is left after the cursor...
                (forall|j: int|
                    0 <= j < mempool@.len() ==> !cursor_lt(
                        old(self).cursor(),
                        #[trigger] cursor_of(mempool@[j]),
                    ))
                // ...or the next transaction doesn't fit.
                || exists|i: int|
                    is_next_after(mempool@, old(self).cursor(), i) && old(self).current_size()
                        + (#[trigger] mempool@[i]).tx.len() > old(self).max_size())
                    && final(self).cursor() == old(self).cursor(),
            },
    {
        if self.finished {
            return None;
        }
        let mut c = self.cursor;
        match mempool.next(&mut c) {
            None => {
                self.finished = true;
                None
            },
            Some(t) => {
                let len = t.tx.data.len();
                if len > self.max_batch_size_bytes - self.current_batch_size_in_bytes {
                    self.finished = true;
                    None
                } else {
                    proof {
                        let i = choose|i: int|
                            is_next_after(mempool@, self.cursor, i) && t@ == #[trigger] mempool@[i]
                                && c == cursor_of(mempool@[i]);
                        assert forall|k: int| 0 <= k < self@.len() implies cursor_lt(
                            #[trigger] cursor_of(self@[k]),
                            c,
                        ) by {
                            crate::standard::mempool::lemma_cursor_lt_total(
                                self.cursor,
                                cursor_of(self@[k]),
                            );
                            if cursor_of(self@[k]) != self.cursor {
                                crate::standard::mempool::lemma_cursor_lt_transitive(
                                    cursor_of(self@[k]),
                                    self.cursor,
                                    c,
                                );
                            }
                        }
                    }
                    self.cursor = c;
                    Some(t)
                }
            },
        }
    }

    /// Records the outcome of trying the candidate `tx`: an included
    /// transaction joins the batch and the cursor skips every transaction
    /// too big for the space left; a transaction that can never be included
    /// is dropped from the mempool, and the notification of the drop is
    /// returned; any other transaction is skipped.
    pub fn record_outcome(&mut self, mempool: &mut Mempool, tx: SeqDbTx, outcome: AddTxOutcome) -> (r:
        Option<TxDropNotice>)
        requires
            old(self).wf(),
            old(mempool).wf(),
            cursor_of(tx@) == old(self).cursor(),
            old(self).current_size() + tx@.tx.len() <= old(self).max_size(),
            forall|k: int|
                0 <= k < old(self)@.len() ==> cursor_lt(
                    #[trigger] cursor_of(old(self)@[k]),
                    cursor_of(tx@),
                ),
        ensures
            final(self).wf(),
            final(mempool).wf(),
            final(mempool).capacity() == old(mempool).capacity(),
            final(self).max_size() == old(self).max_size(),
            final(self).is_finished() == old(self).is_finished(),
            assembly_step_with(old(self)@, old(mempool)@, tx@, final(self)@, final(mempool)@),
            match outcome {
                AddTxOutcome::Included => {
                    &&& final(self)@ == old(self)@.push(tx@)
                    &&& final(self).current_size() == old(self).current_size() + tx@.tx.len()
                    &&& final(self).cursor() == (if cursor_lt(
                        spec_mempool_cursor(old(self).max_size(), final(self).current_size()),
                        old(self).cursor(),
                    ) {
                        old(self).cursor()
                    } else {
                        spec_mempool_cursor(old(self).max_size(), final(self).current_size())
                    })
                    &&& *final(mempool) == *old(mempool)
                    &&& r is None
                },
                AddTxOutcome::Reverted | AddTxOutcome::NotIncludableNow => {
                    &&& final(self)@ == old(self)@
                    &&& final(self).current_size() == old(self).current_size()
                    &&& final(self).cursor() == old(self).cursor()
                    &&& *final(mempool) == *old(mempool)
                    &&& r is None
                },
                AddTxOutcome::FatallyInvalid => {
                    &&& final(self)@ == old(self)@
                    &&& final(self).current_size() == old(self).current_size()
                    &&& final(self).cursor() == old(self).cursor()
                    &&& final(mempool)@ == without_hash(old(mempool)@, tx@.hash)
                    &&& r matches Some(n) && n.hash@ == tx@.hash && n.reason@
                        == "Transaction is invalid"@
                },
                AddTxOutcome::PermissionDenied { module } => {
                    &&& final(self)@ == old(self)@
                    &&& final(self).current_size() == old(self).current_size()
                    &&& final(self).cursor() == old(self).cursor()
                    &&& final(mempool)@ == without_hash(old(mempool)@, tx@.hash)
                    &&& r matches Some(n) && n.hash@ == tx@.hash && n.reason@
                        == permission_denied_reason(module@)
                },
            },
    {
        match outcome {
            AddTxOutcome::Included => {
                let ghost before = self@;
                let ghost tv = tx@;
                let old_cursor = self.cursor;
                let len = tx.tx.data.len();
                self.current_batch_size_in_bytes = self.current_batch_size_in_bytes + len;
                self.txs.push(tx);
                assert(self@ =~= before.push(tv));
                let m = mempool_cursor(self.max_batch_size_bytes, self.current_batch_size_in_bytes);
                self.cursor = old_cursor.max_cursor(m);
                proof {
                    assert(self@.drop_last() =~= before);
                    assert forall|a: int, b: int| 0 <= a < b < self@.len() implies cursor_lt(
                        #[trigger] cursor_of(self@[a]),
                        #[trigger] cursor_of(self@[b]),
                    ) by {
                        assert(self@[a] == before[a]);
                        if b < before.len() {
                            assert(self@[b] == before[b]);
                        }
                    }
                    assert forall|i: int| 0 <= i < self@.len() implies !cursor_lt(
                        self.cursor,
                        #[trigger] cursor_of(self@[i]),
                    ) by {
                        if cursor_lt(self.cursor, cursor_of(self@[i])) {
                            if self.cursor != old_cursor {
                                crate::standard::mempool::lemma_cursor_lt_transitive(
                                    old_cursor,
                                    self.cursor,
                                    cursor_of(self@[i]),
                                );
                            }
                            if i < before.len() {
                                assert(self@[i] == before[i]);
                            }
                        }
                    }
                }
                None
            },
            AddTxOutcome::Reverted | AddTxOutcome::NotIncludableNow => None,
            AddTxOutcome::FatallyInvalid => {
                let notice = mempool.drop(&tx.hash, "Transaction is invalid".to_owned());
                Some(notice)
            },
            AddTxOutcome::PermissionDenied { module } => {
                let reason = "The transaction was rejected because the it invokes the `".to_owned();
                let reason = reason.concat(module.as_str());
                let reason = reason.concat(
                    "` module which may modify sequencer configurations. You need admin permissions on the sequencer to call this method.",
                );
                let notice = mempool.drop(&tx.hash, reason);
                Some(notice)
            },
        }
    }

    /// Ends the assembly: the batch of included transactions with their
    /// hashes, or `None` if no transaction was included.
    pub fn finish(self) -> (r: Option<WithCachedTxHashes<Vec<FullyBakedTx>>>)
        requires
            self.wf(),
        ensures
            self@.len() == 0 <==> r is None,
            total_size(self@) <= self.max_size(),
            included_in_order(self@),
            r matches Some(b) ==> {
                &&& b.inner@.len() == self@.len()
                &&& b.tx_hashes@.len() == self@.len()
                &&& forall|i: int|
                    0 <= i < self@.len() ==> (#[trigger] b.inner@[i]).data@ == self@[i].tx
                        && b.tx_hashes@[i]@ == self@[i].hash
            },
    {
        if self.txs.len() == 0 {
            return None;
        }
        let ghost all = self@;
        let mut txs = self.txs;
        let mut inner: Vec<FullyBakedTx> = Vec::new();
        let mut tx_hashes: Vec<TxHash> = Vec::new();
        let n = txs.len();
        let mut i: usize = 0;
        while i < n
            invariant
                0 <= i <= n,
                n == all.len(),
                txs@.len() == n,
                txs@.map_values(|t: SeqDbTx| t@) == all,
                inner@.len() == i,
                tx_hashes@.len() == i,
                forall|k: int|
                    0 <= k < i ==> (#[trigger] inner@[k]).data@ == all[k].tx && tx_hashes@[k]@
                        == all[k].hash,
            decreases n - i,
        {
            assert(txs@.map_values(|t: SeqDbTx| t@)[i as int] == all[i as int]);
            let t = txs[i].duplicate();
            tx_hashes.push(t.hash);
            inner.push(t.tx);
            i = i + 1;
        }
        Some(WithCachedTxHashes { inner, tx_hashes })
    }

}

} // verus!
