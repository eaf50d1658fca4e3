//! How the fair batch builder fills a blob out of its mempool.
//!
//! Transactions are taken largest first, then least recent first; each one
//! is run against the rollup state by the caller, who reports the outcome
//! back. Transactions that ran successfully join the blob; the others are
//! skipped, unless the failure is one that must stop the whole assembly.
use vstd::prelude::*;
use vstd::string::*;

use crate::errors::{decimal, decimal_text};
use crate::fair::mempool::{
    fair_cursor_lt, fair_cursor_of, is_fair_next_after, lemma_fair_cursor_order, FairMempool,
    MempoolCursor, MempoolTx,
};
use crate::standard::mempool::{
    contains_hash, hashes_unique, lemma_without_hashes_removes, without_hashes, SeqDbTxView,
};
use crate::types::TxHash;

verus! {

/// The mempool capacity used when none is configured.
pub const DEFAULT_MEMPOOL_MAX_TXS_COUNT: usize = 100;

/// The blob size limit used when none is configured: 1 MiB.
pub const DEFAULT_MAX_BATCH_SIZE_BYTES: usize = 1048576;

/// Configuration of the fair batch builder; `A` is the DA address type.
#[derive(Clone, Debug, PartialEq, Eq)]
pub struct FairBatchBuilderConfig<A> {
    /// Maximum number of transactions in the mempool. Once this limit is
    /// reached, the oldest transactions are evicted.
    pub mempool_max_txs_count: Option<usize>,
    /// Maximum size of a blob, in bytes.
    pub max_batch_size_bytes: Option<usize>,
    /// DA address of the sequencer.
    pub sequencer_address: A,
}

impl<A> FairBatchBuilderConfig<A> {
    /// The capacity of the mempool: the configured one or the default.
    pub fn mempool_max_txs_count_or_default(&self) -> (r: usize)
        ensures
            r == match self.mempool_max_txs_count {
                Some(n) => n,
                None => DEFAULT_MEMPOOL_MAX_TXS_COUNT,
            },
    {
        match self.mempool_max_txs_count {
            Some(n) => n,
            None => DEFAULT_MEMPOOL_MAX_TXS_COUNT,
        }
    }

    /// The size limit of a blob: the configured one or the default.
    pub fn max_batch_size_bytes_or_default(&self) -> (r: usize)
        ensures
            r == match self.max_batch_size_bytes {
                Some(n) => n,
                None => DEFAULT_MAX_BATCH_SIZE_BYTES,
            },
    {
        match self.max_batch_size_bytes {
            Some(n) => n,
            None => DEFAULT_MAX_BATCH_SIZE_BYTES,
        }
    }
}

/// A refused transaction: an HTTP status, a title, and details.
#[derive(Debug)]
pub struct AcceptTxError {
    pub http_status: u16,
    pub title: String,
    pub details: String,
}

/// The message that gives the size limit and the size submitted.
pub open spec fn too_big_details(max: nat, submitted: nat) -> Seq<char> {
    "Max allowed size: "@ + decimal(max) + ", submitted size: "@ + decimal(submitted)
}

/// Refuses a transaction larger than a whole blob may be.
pub fn check_tx_size(max_batch_size_bytes: usize, tx_len: usize) -> (r: Result<(), AcceptTxError>)
    ensures
        r is Ok <==> tx_len <= max_batch_size_bytes,
        r matches Err(e) ==> e.http_status == 400 && e.title@ == "Transaction is too big"@
            && e.details@ == too_big_details(max_batch_size_bytes as nat, tx_len as nat),
{
    if tx_len > max_batch_size_bytes {
        let details = "Max allowed size: ".to_owned();
        let details = details.concat(decimal_text(max_batch_size_bytes as u128).as_str());
        let details = details.concat(", submitted size: ");
        let details = details.concat(decimal_text(tx_len as u128).as_str());
        return Err(
            AcceptTxError { http_status: 400, title: "Transaction is too big".to_owned(), details },
        );
    }
    Ok(())
}

/// Why a transaction could not be taken into the mempool, apart from its
/// size; each carries the debug text of the underlying error.
#[derive(Debug)]
pub enum AcceptTxFailure {
    /// The transaction could not be encoded.
    Encoding(String),
    /// The sequencer is not authorized (e.g. not enough stake).
    SequencerAuthorization(String),
    /// The transaction failed authentication.
    Authentication(String),
    /// The mempool could not store the transaction.
    Storage(String),
}

/// The error answered for a failure to take a transaction.
pub fn accept_tx_error(failure: AcceptTxFailure) -> (r: AcceptTxError)
    ensures
        match failure {
            AcceptTxFailure::Encoding(d) => r.http_status == 400 && r.title@
                == "Failed to encode transaction"@ && r.details@ == d@,
            AcceptTxFailure::SequencerAuthorization(d) => r.http_status == 503 && r.title@
                == "Sequencer authorization error"@ && r.details@ == d@,
            AcceptTxFailure::Authentication(d) => r.http_status == 400 && r.title@
                == "The transaction is invalid"@ && r.details@ == d@,
            AcceptTxFailure::Storage(d) => r.http_status == 500 && r.title@
                == "Failed to submit transaction"@ && r.details@ == d@,
        },
{
    match failure {
        AcceptTxFailure::Encoding(d) => AcceptTxError {
            http_status: 400,
            title: "Failed to encode transaction".to_owned(),
            details: d,
        },
        AcceptTxFailure::SequencerAuthorization(d) => AcceptTxError {
            http_status: 503,
            title: "Sequencer authorization error".to_owned(),
            details: d,
        },
        AcceptTxFailure::Authentication(d) => AcceptTxError {
            http_status: 400,
            title: "The transaction is invalid".to_owned(),
            details: d,
        },
        AcceptTxFailure::Storage(d) => AcceptTxError {
            http_status: 500,
            title: "Failed to submit transaction".to_owned(),
            details: d,
        },
    }
}

/// A transaction of a blob, with its hash.
#[derive(Debug)]
pub struct TxWithHash {
    pub raw_tx: Vec<u8>,
    pub hash: TxHash,
}

/// What happened when a transaction was run against the rollup state.
#[derive(Debug)]
pub enum FairTxOutcome {
    /// It ran and succeeded.
    Successful,
    /// It ran and failed: it is skipped.
    Failed,
    /// Its nonce is wrong for now: it is skipped.
    NonceError,
    /// It could not be processed for another reason, whose text is given:
    /// the assembly stops with an error.
    Fatal(String),
}

/// Each transaction comes strictly after the previous ones in the iteration
/// order.
pub open spec fn fairly_ordered(txs: Seq<SeqDbTxView>) -> bool {
    forall|i: int, j: int|
        0 <= i < j < txs.len() ==> fair_cursor_lt(
            #[trigger] fair_cursor_of(txs[i]),
            #[trigger] fair_cursor_of(txs[j]),
        )
}

/// The sum of the sizes of the given transactions.
pub open spec fn blob_size(txs: Seq<SeqDbTxView>) -> nat
    decreases txs.len(),
{
    if txs.len() == 0 {
        0
    } else {
        blob_size(txs.drop_last()) + txs.last().tx.len()
    }
}

/// The cursor that skips every transaction bigger than the space left.
pub open spec fn space_cursor(max: usize, current: usize) -> MempoolCursor {
    MempoolCursor { tx_size_in_bytes: (max - current) as usize, incremental_id: 0 }
}

/// `t` does not fit in the space a blob of `current` bytes out of `max`
/// leaves.
pub open spec fn too_big_for_space(t: SeqDbTxView, max: usize, current: usize) -> bool {
    current + t.tx.len() > max
}

/// `t` has a cursor that stands for it: its size and identifier fit their
/// types.
pub open spec fn cursor_stands_for(t: SeqDbTxView) -> bool {
    t.tx.len() <= usize::MAX && t.uuid_v7 <= u64::MAX
}

/// The cursor a fill moves on to after including a transaction, which
/// brings the blob to `current` bytes out of `max`, skips exactly the
/// transactions too big for the space left: none of those comes after it,
/// while every transaction that fits and came after the cursor `old` still
/// does (identifier 0 is never given to a transaction).
pub proof fn lemma_cursor_after_inclusion(old: MempoolCursor, max: usize, current: usize)
    requires
        current <= max,
    ensures
        ({
            let c = if fair_cursor_lt(space_cursor(max, current), old) {
                old
            } else {
                space_cursor(max, current)
            };
            &&& forall|t: SeqDbTxView|
                cursor_stands_for(t) && #[trigger] too_big_for_space(t, max, current) ==> !fair_cursor_lt(
                    c,
                    fair_cursor_of(t),
                )
            &&& forall|t: SeqDbTxView|
                cursor_stands_for(t) && !#[trigger] too_big_for_space(t, max, current) && t.uuid_v7 >= 1
                    && fair_cursor_lt(old, fair_cursor_of(t)) ==> fair_cursor_lt(c, fair_cursor_of(t))
        }),
{
    let sc = space_cursor(max, current);
    let c = if fair_cursor_lt(sc, old) { old } else { sc };
    assert forall|t: SeqDbTxView|
        cursor_stands_for(t) && #[trigger] too_big_for_space(t, max, current) implies !fair_cursor_lt(
        c,
        fair_cursor_of(t),
    ) by {
        let ct = fair_cursor_of(t);
        assert(fair_cursor_lt(ct, sc));
        lemma_fair_cursor_order(ct, sc, c);
        lemma_fair_cursor_order(c, ct, sc);
        lemma_fair_cursor_order(ct, c, ct);
    }
    assert forall|t: SeqDbTxView|
        cursor_stands_for(t) && !#[trigger] too_big_for_space(t, max, current) && t.uuid_v7 >= 1
            && fair_cursor_lt(old, fair_cursor_of(t)) implies fair_cursor_lt(c, fair_cursor_of(t)) by {
        assert(fair_cursor_lt(sc, fair_cursor_of(t)));
    }
}

/// The message given when no transaction made it into the blob.
pub open spec fn no_valid_txs_message(count_before: nat) -> Seq<char> {
    "No valid transactions are available out of "@ + decimal(count_before) + " were in the pool"@
}

/// The message given when the assembly stops on a transaction that could not
/// be processed.
pub open spec fn fatal_message(reason: Seq<char>) -> Seq<char> {
    "An non-recoverable error occurred when trying to add the tx to the batch: "@ + reason
}

/// `t` comes after every transaction of `blob` in the iteration order.
pub open spec fn fair_after_all(blob: Seq<SeqDbTxView>, t: SeqDbTxView) -> bool {
    forall|k: int|
        0 <= k < blob.len() ==> fair_cursor_lt(#[trigger] fair_cursor_of(blob[k]), fair_cursor_of(t))
}

/// One step of a fill, from the blob `b` to `b2`: the transaction `t`, which
/// comes after every included one, was run, and then included or skipped.
pub open spec fn fill_step_with(b: Seq<SeqDbTxView>, t: SeqDbTxView, b2: Seq<SeqDbTxView>) -> bool {
    &&& fair_after_all(b, t)
    &&& (b2 == b.push(t) || b2 == b)
}

/// The `k`-th step of the run `bs` out of the mempool `m`.
pub open spec fn fill_step_at(bs: Seq<Seq<SeqDbTxView>>, m: Seq<SeqDbTxView>, k: int) -> bool {
    exists|i: int| 0 <= i < m.len() && #[trigger] fill_step_with(bs[k], m[i], bs[k + 1])
}

/// A run of a fill out of the mempool `m`, which does not change while the
/// blob is filled: the blobs after each step, starting from an empty one.
pub open spec fn fill_run(bs: Seq<Seq<SeqDbTxView>>, m: Seq<SeqDbTxView>) -> bool {
    &&& bs.len() > 0
    &&& bs[0].len() == 0
    &&& forall|k: int| 0 <= k < bs.len() - 1 ==> #[trigger] fill_step_at(bs, m, k)
}

/// The blob after every step of a run is in order and made of
/// transactions of the mempool.
proof fn lemma_fill_run_invariant(bs: Seq<Seq<SeqDbTxView>>, m: Seq<SeqDbTxView>)
    requires
        fill_run(bs, m),
    ensures
        fairly_ordered(bs.last()),
        forall|i: int| 0 <= i < bs.last().len() ==> m.contains(#[trigger] bs.last()[i]),
    decreases bs.len(),
{
    if bs.len() > 1 {
        let n = bs.len() - 1;
        let pb = bs.drop_last();
        assert forall|k: int| 0 <= k < pb.len() - 1 implies #[trigger] fill_step_at(pb, m, k) by {
            assert(fill_step_at(bs, m, k));
            let i = choose|i: int| 0 <= i < m.len() && #[trigger] fill_step_with(bs[k], m[i], bs[k + 1]);
            assert(pb[k] == bs[k] && pb[k + 1] == bs[k + 1]);
            assert(fill_step_with(pb[k], m[i], pb[k + 1]));
        }
        lemma_fill_run_invariant(pb, m);
        assert(fill_step_at(bs, m, n - 1));
        let b = bs[n - 1];
        let b2 = bs[n];
        let i = choose|i: int| 0 <= i < m.len() && #[trigger] fill_step_with(b, m[i], b2);
        if b2 == b.push(m[i]) {
            assert forall|x: int, y: int| 0 <= x < y < b2.len() implies fair_cursor_lt(
                #[trigger] fair_cursor_of(b2[x]),
                #[trigger] fair_cursor_of(b2[y]),
            ) by {
                assert(b2[x] == b[x]);
                if y < b.len() {
                    assert(b2[y] == b[y]);
                }
            }
            assert forall|x: int| 0 <= x < b2.len() implies m.contains(#[trigger] b2[x]) by {
                if x < b.len() {
                    assert(b2[x] == b[x]);
                }
            }
        }
    }
}

/// Over any run of a fill out of a mempool with unique hashes, the blob
/// consists of distinct transactions of the mempool, in iteration order;
/// once the fill is finished, none of them is left in the mempool.
pub proof fn lemma_fill_run(bs: Seq<Seq<SeqDbTxView>>, m: Seq<SeqDbTxView>)
    requires
        fill_run(bs, m),
        hashes_unique(m),
    ensures
        fairly_ordered(bs.last()),
        forall|i: int| 0 <= i < bs.last().len() ==> m.contains(#[trigger] bs.last()[i]),
        forall|i: int, j: int|
            0 <= i < j < bs.last().len() ==> #[trigger] bs.last()[i].hash != #[trigger] bs.last()[j].hash,
        forall|i: int|
            0 <= i < bs.last().len() ==> !contains_hash(
                without_hashes(m, bs.last().map_values(|t: SeqDbTxView| t.hash)),
                #[trigger] bs.last()[i].hash,
            ),
{
    lemma_fill_run_invariant(bs, m);
    let b = bs.last();
    assert forall|i: int, j: int| 0 <= i < j < b.len() implies #[trigger] b[i].hash
        != #[trigger] b[j].hash by {
        assert(fair_cursor_lt(fair_cursor_of(b[i]), fair_cursor_of(b[j])));
        lemma_fair_cursor_order(fair_cursor_of(b[i]), fair_cursor_of(b[i]), fair_cursor_of(b[i]));
        assert(m.contains(b[i]) && m.contains(b[j]));
        let p = choose|p: int| 0 <= p < m.len() && m[p] == b[i];
        let q = choose|q: int| 0 <= q < m.len() && m[q] == b[j];
        if b[i].hash == b[j].hash {
            assert(p == q);
        }
    }
    let hs = b.map_values(|t: SeqDbTxView| t.hash);
    lemma_without_hashes_removes(m, hs);
    assert forall|i: int| 0 <= i < b.len() implies !contains_hash(
        without_hashes(m, hs),
        #[trigger] b[i].hash,
    ) by {
        assert(hs[i] == b[i].hash);
    }
}

/// A blob being filled.
pub struct FairBlobAssembly {
    max_batch_size_bytes: usize,
    current_batch_size_in_bytes: usize,
    cursor: MempoolCursor,
    txs: Vec<MempoolTx>,
    count_before: usize,
}

impl View for FairBlobAssembly {
    type V = Seq<SeqDbTxView>;

    closed spec fn view(&self) -> Seq<SeqDbTxView> {
        self.txs@.map_values(|t: MempoolTx| t@)
    }
}

impl FairBlobAssembly {
    /// The largest the blob may grow.
    pub closed spec fn max_size(&self) -> usize {
        self.max_batch_size_bytes
    }

    /// The size of the transactions included so far.
    pub closed spec fn current_size(&self) -> usize {
        self.current_batch_size_in_bytes
    }

    /// Where the iteration over the mempool stands.
    pub closed spec fn cursor(&self) -> MempoolCursor {
        self.cursor
    }

    /// The number of transactions the mempool held when the assembly began.
    pub closed spec fn count_before(&self) -> usize {
        self.count_before
    }

    /// The internal invariant: the included transactions fit in the blob, are
    /// in iteration order, and none comes after the cursor.
    pub closed spec fn wf(&self) -> bool {
        &&& self.current_batch_size_in_bytes == blob_size(self@)
        &&& self.current_batch_size_in_bytes <= self.max_batch_size_bytes
        &&& forall|i: int|
            0 <= i < self@.len() ==> !fair_cursor_lt(self.cursor, #[trigger] fair_cursor_of(self@[i]))
        &&& fairly_ordered(self@)
    }

    /// What callers may rely on whenever the invariant holds.
    pub proof fn lemma_wf(&self)
        requires
            self.wf(),
        ensures
            self.current_size() == blob_size(self@),
            blob_size(self@) <= self.max_size(),
            fairly_ordered(self@),
    {
    }

    /// Starts filling a blob of at most `max_batch_size_bytes` bytes out of a
    /// mempool of `count_before` transactions.
    pub fn new(max_batch_size_bytes: usize, count_before: usize) -> (r: Self)
        ensures
            r.wf(),
            r@.len() == 0,
            r.max_size() == max_batch_size_bytes,
            r.current_size() == 0,
            r.count_before() == count_before,
            r.cursor() == space_cursor(max_batch_size_bytes, 0),
    {
        let r = FairBlobAssembly {
            max_batch_size_bytes,
            current_batch_size_in_bytes: 0,
            cursor: MempoolCursor::new(max_batch_size_bytes),
            txs: Vec::new(),
            count_before,
        };
        assert(r@ =~= Seq::<SeqDbTxView>::empty());
        r
    }

    /// The next transaction to run: the first one after the cursor, if any
    /// and if it fits in the space left; `None` ends the assembly.
    pub fn next_candidate(&mut self, mempool: &FairMempool) -> (r: Option<MempoolTx>)
        requires
            old(self).wf(),
            mempool.wf(),
        ensures
            final(self).wf(),
            final(self)@ == old(self)@,
            final(self).max_size() == old(self).max_size(),
            final(self).current_size() == old(self).current_size(),
            final(self).count_before() == old(self).count_before(),
            r matches Some(t) ==> mempool@.contains(t@),
            match r {
                Some(t) => exists|i: int|
                    is_fair_next_after(mempool@, old(self).cursor(), i) && t@ == #[trigger] mempool@[i]
                        && final(self).cursor() == fair_cursor_of(mempool@[i])
                        && old(self).current_size() + t@.tx.len() <= old(self).max_size()
                        && forall|k: int|
                        0 <= k < old(self)@.len() ==> fair_cursor_lt(
                            #[trigger] fair_cursor_of(old(self)@[k]),
                            fair_cursor_of(t@),
                        ),
                None => (forall|j: int|
                    0 <= j < mempool@.len() ==> !fair_cursor_lt(
                        old(self).cursor(),
                        #[trigger] fair_cursor_of(mempool@[j]),
                    )) || exists|i: int|
                    is_fair_next_after(mempool@, old(self).cursor(), i) && old(self).current_size()
                        + (#[trigger] mempool@[i]).tx.len() > old(self).max_size(),
            },
    {
        let mut c = self.cursor;
        match mempool.next(&mut c) {
            None => None,
            Some(t) => {
                let len = t.tx_bytes.len();
                if len > self.max_batch_size_bytes - self.current_batch_size_in_bytes {
                    None
                } else {
                    proof {
                        let i = choose|i: int|
                            is_fair_next_after(mempool@, self.cursor, i) && t@ == #[trigger] mempool@[i]
                                && c == fair_cursor_of(mempool@[i]);
                        assert forall|k: int| 0 <= k < self@.len() implies fair_cursor_lt(
                            #[trigger] fair_cursor_of(self@[k]),
                            c,
                        ) by {
                            lemma_fair_cursor_order(fair_cursor_of(self@[k]), self.cursor, c);
                        }
                    }
                    self.cursor = c;
                    Some(t)
                }
            },
        }
    }

    /// Records the outcome of running the candidate `tx`: a successful one
    /// joins the blob, and the cursor then skips every transaction too big
    /// for the space left; a failed one, or one with a wrong nonce, is
    /// skipped; any other failure stops the assembly with its message.
    pub fn record_outcome(&mut self, tx: MempoolTx, outcome: FairTxOutcome) -> (r: Result<(), String>)
        requires
            old(self).wf(),
            fair_cursor_of(tx@) == old(self).cursor(),
            old(self).current_size() + tx@.tx.len() <= old(self).max_size(),
            forall|k: int|
                0 <= k < old(self)@.len() ==> fair_cursor_lt(
                    #[trigger] fair_cursor_of(old(self)@[k]),
                    fair_cursor_of(tx@),
                ),
        ensures
            final(self).wf(),
            final(self).max_size() == old(self).max_size(),
            final(self).count_before() == old(self).count_before(),
            fill_step_with(old(self)@, tx@, final(self)@),
            match outcome {
                FairTxOutcome::Successful => {
                    &&& r is Ok
                    &&& final(self)@ == old(self)@.push(tx@)
                    &&& forall|t: SeqDbTxView|
                        cursor_stands_for(t) && #[trigger] too_big_for_space(
                            t,
                            final(self).max_size(),
                            final(self).current_size(),
                        ) ==> !fair_cursor_lt(final(self).cursor(), fair_cursor_of(t))
                    &&& forall|t: SeqDbTxView|
                        cursor_stands_for(t) && !#[trigger] too_big_for_space(
                            t,
                            final(self).max_size(),
                            final(self).current_size(),
                        ) && t.uuid_v7 >= 1 && fair_cursor_lt(old(self).cursor(), fair_cursor_of(t))
                            ==> fair_cursor_lt(final(self).cursor(), fair_cursor_of(t))
                    &&& final(self).current_size() == old(self).current_size() + tx@.tx.len()
                    &&& final(self).cursor() == (if fair_cursor_lt(
                        space_cursor(old(self).max_size(), final(self).current_size()),
                        old(self).cursor(),
                    ) {
                        old(self).cursor()
                    } else {
                        space_cursor(old(self).max_size(), final(self).current_size())
                    })
                },
                FairTxOutcome::Failed | FairTxOutcome::NonceError => {
                    &&& r is Ok
                    &&& final(self)@ == old(self)@
                    &&& final(self).current_size() == old(self).current_size()
                    &&& final(self).cursor() == old(self).cursor()
                },
                FairTxOutcome::Fatal(reason) => {
                    &&& r matches Err(m) && m@ == fatal_message(reason@)
                    &&& final(self)@ == old(self)@
                    &&& final(self).current_size() == old(self).current_size()
                    &&& final(self).cursor() == old(self).cursor()
                },
            },
    {
        match outcome {
            FairTxOutcome::Successful => {
                let ghost before = self@;
                let ghost tv = tx@;
                let old_cursor = self.cursor;
                let len = tx.tx_bytes.len();
                self.current_batch_size_in_bytes = self.current_batch_size_in_bytes + len;
                self.txs.push(tx);
                assert(self@ =~= before.push(tv));
                let m = MempoolCursor::new(
                    self.max_batch_size_bytes - self.current_batch_size_in_bytes,
                );
                self.cursor = old_cursor.max_cursor(m);
                proof {
                    lemma_cursor_after_inclusion(
                        old_cursor,
                        self.max_batch_size_bytes,
                        self.current_batch_size_in_bytes,
                    );
                    assert(self@.drop_last() =~= before);
                    assert forall|a: int, b: int| 0 <= a < b < self@.len() implies fair_cursor_lt(
                        #[trigger] fair_cursor_of(self@[a]),
                        #[trigger] fair_cursor_of(self@[b]),
                    ) by {
                        assert(self@[a] == before[a]);
                        if b < before.len() {
                            assert(self@[b] == before[b]);
                        }
                    }
                    assert forall|i: int| 0 <= i < self@.len() implies !fair_cursor_lt(
                        self.cursor,
                        #[trigger] fair_cursor_of(self@[i]),
                    ) by {
                        lemma_fair_cursor_order(old_cursor, self.cursor, fair_cursor_of(self@[i]));
                        if i < before.len() {
                            assert(self@[i] == before[i]);
                        }
                    }
                }
                Ok(())
            },
            FairTxOutcome::Failed | FairTxOutcome::NonceError => Ok(()),
            FairTxOutcome::Fatal(reason) => {
                let m = "An non-recoverable error occurred when trying to add the tx to the batch: ".to_owned();
                Err(m.concat(reason.as_str()))
            },
        }
    }

    /// Ends the assembly: the included transactions leave the mempool, and
    /// are returned with their hashes; with none included, the assembly
    /// fails.
    pub fn finish(self, mempool: &mut FairMempool) -> (r: Result<Vec<TxWithHash>, String>)
        requires
            self.wf(),
            old(mempool).wf(),
        ensures
            final(mempool).wf(),
            final(mempool).capacity() == old(mempool).capacity(),
            final(mempool)@ == without_hashes(old(mempool)@, self@.map_values(|t: SeqDbTxView| t.hash)),
            blob_size(self@) <= self.max_size(),
            fairly_ordered(self@),
            self@.len() == 0 ==> (r matches Err(m) && m@ == no_valid_txs_message(
                self.count_before() as nat,
            )),
            self@.len() > 0 ==> (r matches Ok(txs) && txs@.len() == self@.len() && forall|i: int|
                0 <= i < self@.len() ==> (#[trigger] txs@[i]).raw_tx@ == self@[i].tx
                    && txs@[i].hash@ == self@[i].hash),
    {
        let ghost all = self@;
        let txs = self.txs;
        let n = txs.len();
        let mut out: Vec<TxWithHash> = Vec::new();
        let mut hashes: Vec<TxHash> = Vec::new();
        let mut i: usize = 0;
        while i < n
            invariant
                0 <= i <= n,
                n == all.len(),
                txs@.len() == n,
                txs@.map_values(|t: MempoolTx| t@) == all,
                out@.len() == i,
                hashes@.map_values(|h: TxHash| h@) == all.map_values(|t: SeqDbTxView| t.hash).take(
                    i as int,
                ),
                forall|k: int|
                    0 <= k < i ==> (#[trigger] out@[k]).raw_tx@ == all[k].tx && out@[k].hash@
                        == all[k].hash,
            decreases n - i,
        {
            assert(txs@.map_values(|t: MempoolTx| t@)[i as int] == all[i as int]);
            let t = txs[i].duplicate();
            let ghost hs0 = hashes@.map_values(|h: TxHash| h@);
            hashes.push(t.hash);
            assert(hashes@.map_values(|h: TxHash| h@) =~= hs0.push(t.hash@));
            assert(all.map_values(|t: SeqDbTxView| t.hash).take(i + 1) =~= all.map_values(
                |t: SeqDbTxView| t.hash,
            ).take(i as int).push(all[i as int].hash));
            out.push(TxWithHash { raw_tx: t.tx_bytes, hash: t.hash });
            i = i + 1;
        }
        assert(all.map_values(|t: SeqDbTxView| t.hash).take(n as int) =~= all.map_values(
            |t: SeqDbTxView| t.hash,
        ));
        mempool.remove_atomically(&hashes);
        if n == 0 {
            let m = "No valid transactions are available out of ".to_owned();
            let m = m.concat(decimal_text(self.count_before as u128).as_str());
            return Err(m.concat(" were in the pool"));
        }
        Ok(out)
    }
}

} // verus!
