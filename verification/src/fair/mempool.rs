//! The fair batch builder's mempool.
//!
//! Transactions are numbered in the order they arrive. They leave the
//! mempool largest first, then least recent first; when the mempool holds
//! more than it may, the oldest transactions are evicted.
//!
//! Every change is to be persisted by the caller before it is applied here;
//! the hashes of evicted transactions are returned for that purpose.
use vstd::prelude::*;

use crate::standard::mempool::{
    contains_hash, hash_index, hashes_unique, is_oldest, lemma_oldest_exists, oldest_index,
    uuids_unique, without_hash, without_hashes, SeqDbTxView,
};
use crate::types::{tx_hash_eq, TxHash};

verus! {

/// A position in the fair mempool's iteration order: transactions are
/// ordered by size (largest first) and then by incremental identifier
/// (least recent first).
#[derive(Clone, Copy, Debug, PartialEq, Eq)]
pub struct MempoolCursor {
    pub tx_size_in_bytes: usize,
    pub incremental_id: u64,
}

/// `a` comes strictly before `b` in the iteration order.
pub open spec fn fair_cursor_lt(a: MempoolCursor, b: MempoolCursor) -> bool {
    ||| a.tx_size_in_bytes > b.tx_size_in_bytes
    ||| (a.tx_size_in_bytes == b.tx_size_in_bytes && a.incremental_id < b.incremental_id)
}

impl MempoolCursor {
    /// The cursor that precedes every transaction of at most
    /// `tx_size_in_bytes` bytes; identifier 0 is never given to a
    /// transaction.
    pub fn new(tx_size_in_bytes: usize) -> (r: Self)
        ensures
            r.tx_size_in_bytes == tx_size_in_bytes,
            r.incremental_id == 0,
    {
        MempoolCursor { tx_size_in_bytes, incremental_id: 0 }
    }

    /// Whether `self` comes strictly before `other`.
    pub fn precedes(&self, other: &Self) -> (r: bool)
        ensures
            r == fair_cursor_lt(*self, *other),
    {
        self.tx_size_in_bytes > other.tx_size_in_bytes || (self.tx_size_in_bytes
            == other.tx_size_in_bytes && self.incremental_id < other.incremental_id)
    }

    /// The later of the two cursors.
    pub fn max_cursor(self, other: Self) -> (r: Self)
        ensures
            r == (if fair_cursor_lt(other, self) { self } else { other }),
    {
        if other.precedes(&self) {
            self
        } else {
            other
        }
    }
}

/// The iteration order is a strict total order: irreflexive, transitive, and
/// any two distinct cursors are ordered one way or the other.
pub proof fn lemma_fair_cursor_order(a: MempoolCursor, b: MempoolCursor, c: MempoolCursor)
    ensures
        !fair_cursor_lt(a, a),
        fair_cursor_lt(a, b) && fair_cursor_lt(b, c) ==> fair_cursor_lt(a, c),
        a == b || fair_cursor_lt(a, b) || fair_cursor_lt(b, a),
        !(fair_cursor_lt(a, b) && fair_cursor_lt(b, a)),
{
}

/// A transaction in the fair mempool.
#[derive(Debug)]
pub struct MempoolTx {
    pub hash: TxHash,
    pub tx_bytes: Vec<u8>,
    /// Its number in the order of arrival. Never zero.
    pub incremental_id: u64,
}

impl View for MempoolTx {
    type V = SeqDbTxView;

    /// The transaction, with its incremental identifier as its time-ordered
    /// identifier.
    open spec fn view(&self) -> SeqDbTxView {
        SeqDbTxView { tx: self.tx_bytes@, hash: self.hash@, uuid_v7: self.incremental_id as u128 }
    }
}

impl MempoolTx {
    /// A transaction with the given hash, bytes and number.
    pub fn new(hash: TxHash, tx_bytes: Vec<u8>, incremental_id: u64) -> (r: Self)
        ensures
            r.hash == hash,
            r.tx_bytes@ == tx_bytes@,
            r.incremental_id == incremental_id,
    {
        MempoolTx { hash, tx_bytes, incremental_id }
    }

    /// A copy of this transaction.
    pub fn duplicate(&self) -> (r: Self)
        ensures
            r@ == self@,
            r.incremental_id == self.incremental_id,
    {
        let tx_bytes = self.tx_bytes.clone();
        assert(tx_bytes@ =~= self.tx_bytes@);
        MempoolTx { hash: self.hash, tx_bytes, incremental_id: self.incremental_id }
    }
}

/// The cursor of a transaction.
pub open spec fn fair_cursor_of(t: SeqDbTxView) -> MempoolCursor {
    MempoolCursor { tx_size_in_bytes: t.tx.len() as usize, incremental_id: t.uuid_v7 as u64 }
}

/// `i` is the position of the first transaction that comes after `c`.
pub open spec fn is_fair_next_after(s: Seq<SeqDbTxView>, c: MempoolCursor, i: int) -> bool {
    &&& 0 <= i < s.len()
    &&& fair_cursor_lt(c, fair_cursor_of(s[i]))
    &&& forall|j: int|
        0 <= j < s.len() && fair_cursor_lt(c, #[trigger] fair_cursor_of(s[j])) ==> !fair_cursor_lt(
            fair_cursor_of(s[j]),
            fair_cursor_of(s[i]),
        )
}

/// The transactions left once `t` was added to `s` in a mempool holding at
/// most `max`: while there are too many, the oldest goes (at most one goes
/// when `s` itself was within the limit).
pub open spec fn fair_after_add(s: Seq<SeqDbTxView>, t: SeqDbTxView, max: nat) -> Seq<SeqDbTxView> {
    let p = s.push(t);
    if p.len() > max {
        p.remove(oldest_index(p))
    } else {
        p
    }
}

/// The hashes evicted when `t` was added to `s`.
pub open spec fn fair_evicted_by_add(s: Seq<SeqDbTxView>, t: SeqDbTxView, max: nat) -> Seq<Seq<u8>> {
    let p = s.push(t);
    if p.len() > max {
        seq![p[oldest_index(p)].hash]
    } else {
        Seq::empty()
    }
}

/// The transactions a mempool of capacity `max` holds once each of `s` was
/// added, in order, to an empty one.
pub open spec fn fair_restore(max: nat, s: Seq<SeqDbTxView>) -> Seq<SeqDbTxView>
    decreases s.len(),
{
    if s.len() == 0 {
        Seq::empty()
    } else {
        fair_after_add(fair_restore(max, s.drop_last()), s.last(), max)
    }
}

/// The hashes evicted while each of `s` was added, in order, to an empty
/// mempool of capacity `max`.
pub open spec fn fair_restore_evicted(max: nat, s: Seq<SeqDbTxView>) -> Seq<Seq<u8>>
    decreases s.len(),
{
    if s.len() == 0 {
        Seq::empty()
    } else {
        fair_restore_evicted(max, s.drop_last()) + fair_evicted_by_add(
            fair_restore(max, s.drop_last()),
            s.last(),
            max,
        )
    }
}

/// The greatest identifier in `s`, or 0 when it is empty.
pub open spec fn max_id(s: Seq<SeqDbTxView>) -> int
    decreases s.len(),
{
    if s.len() == 0 {
        0
    } else if s.last().uuid_v7 >= max_id(s.drop_last()) {
        s.last().uuid_v7 as int
    } else {
        max_id(s.drop_last())
    }
}

/// `max_id` bounds every identifier of `s`.
pub proof fn lemma_max_id(s: Seq<SeqDbTxView>)
    ensures
        forall|i: int| 0 <= i < s.len() ==> (#[trigger] s[i]).uuid_v7 <= max_id(s),
        max_id(s) >= 0,
        s.len() > 0 ==> exists|i: int| 0 <= i < s.len() && s[i].uuid_v7 == max_id(s),
    decreases s.len(),
{
    if s.len() > 0 {
        lemma_max_id(s.drop_last());
        assert forall|i: int| 0 <= i < s.len() implies (#[trigger] s[i]).uuid_v7 <= max_id(s) by {
            if i < s.len() - 1 {
                assert(s[i] == s.drop_last()[i]);
            }
        }
        if s.last().uuid_v7 < max_id(s.drop_last()) {
            let i = choose|i: int|
                0 <= i < s.drop_last().len() && s.drop_last()[i].uuid_v7 == max_id(s.drop_last());
            assert(s[i] == s.drop_last()[i]);
        }
    }
}

/// Every transaction left after an addition was either there before or is
/// the one added.
pub proof fn lemma_fair_after_add_subset(s: Seq<SeqDbTxView>, t: SeqDbTxView, max: nat)
    ensures
        forall|k: int|
            0 <= k < fair_after_add(s, t, max).len() ==> #[trigger] fair_after_add(s, t, max)[k] == t
                || s.contains(fair_after_add(s, t, max)[k]),
        fair_after_add(s, t, max).len() <= s.len() + 1,
        fair_after_add(s, t, max).len() <= max || fair_after_add(s, t, max).len() == s.len(),
{
    let p = s.push(t);
    let a = fair_after_add(s, t, max);
    if p.len() > max {
        lemma_oldest_exists(p);
        let o = oldest_index(p);
        assert forall|k: int| 0 <= k < a.len() implies #[trigger] a[k] == t || s.contains(a[k]) by {
            let j = if k < o { k } else { k + 1 };
            assert(a[k] == p[j]);
            if j < s.len() {
                assert(p[j] == s[j]);
            }
        }
    } else {
        assert forall|k: int| 0 <= k < a.len() implies #[trigger] a[k] == t || s.contains(a[k]) by {
            if k < s.len() {
                assert(a[k] == s[k]);
            }
        }
    }
}

/// Adding a transaction whose hash is still in the mempool gives back the
/// transaction the earlier addition returned: `t1` is what adding a
/// transaction to `m0` returned, leaving `m1` (unchanged when the hash was
/// already there, `t1` added otherwise); as long as `m1` still holds that
/// hash, the transaction stored under it, which a second addition returns
/// while leaving the mempool unchanged, is `t1`.
pub proof fn lemma_add_new_tx_again(m0: Seq<SeqDbTxView>, t1: SeqDbTxView, m1: Seq<SeqDbTxView>, max: nat)
    requires
        contains_hash(m1, t1.hash),
        contains_hash(m0, t1.hash) ==> m1 == m0 && t1 == m0[hash_index(m0, t1.hash)],
        !contains_hash(m0, t1.hash) ==> m1 == fair_after_add(m0, t1, max),
    ensures
        m1[hash_index(m1, t1.hash)] == t1,
{
    let k = hash_index(m1, t1.hash);
    if !contains_hash(m0, t1.hash) {
        lemma_fair_after_add_subset(m0, t1, max);
        if m1[k] != t1 {
            assert(m0.contains(m1[k]));
            let j = choose|j: int| 0 <= j < m0.len() && m0[j] == m1[k];
            assert(m0[j].hash == t1.hash);
        }
    }
}

/// The fair mempool.
///
/// It holds transactions in memory only. A caller that keeps them in a
/// store as well must write each change there first (the addition, and the
/// removal of the evicted hashes that `add` returns) and only then make it
/// here, so that what is in memory never runs ahead of what is stored.
pub struct FairMempool {
    mempool_max_txs_count: usize,
    next_incr_id: u64,
    txs: Vec<MempoolTx>,
}

impl View for FairMempool {
    type V = Seq<SeqDbTxView>;

    closed spec fn view(&self) -> Seq<SeqDbTxView> {
        self.txs@.map_values(|t: MempoolTx| t@)
    }
}

impl FairMempool {
    /// The most transactions the mempool holds.
    pub closed spec fn capacity(&self) -> nat {
        self.mempool_max_txs_count as nat
    }

    /// The identifier the next new transaction gets.
    pub closed spec fn next_id(&self) -> u64 {
        self.next_incr_id
    }

    /// The internal invariant: within capacity, hashes and identifiers
    /// unique, every identifier positive and below the next one.
    pub closed spec fn wf(&self) -> bool {
        &&& self.txs@.len() <= self.mempool_max_txs_count
        &&& hashes_unique(self@)
        &&& uuids_unique(self@)
        &&& self.next_incr_id >= 1
        &&& forall|i: int| 0 <= i < self@.len() ==> (#[trigger] self@[i]).uuid_v7 < self.next_incr_id
        &&& forall|i: int| 0 <= i < self@.len() ==> 1 <= (#[trigger] self@[i]).uuid_v7
    }

    /// What callers may rely on whenever the invariant holds.
    pub proof fn lemma_wf(&self)
        requires
            self.wf(),
        ensures
            self@.len() <= self.capacity(),
            hashes_unique(self@),
            uuids_unique(self@),
            self.next_id() >= 1,
            forall|i: int|
                0 <= i < self@.len() ==> 1 <= (#[trigger] self@[i]).uuid_v7 < self.next_id(),
    {
    }

    fn index_of_hash(&self, hash: &TxHash) -> (r: Option<usize>)
        requires
            hashes_unique(self@),
        ensures
            match r {
                Some(i) => i < self@.len() && self@[i as int].hash == hash@ && i == hash_index(
                    self@,
                    hash@,
                ),
                None => !contains_hash(self@, hash@),
            },
    {
        let mut i: usize = 0;
        while i < self.txs.len()
            invariant
                0 <= i <= self.txs@.len(),
                hashes_unique(self@),
                forall|j: int| 0 <= j < i ==> self@[j].hash != hash@,
            decreases self.txs@.len() - i,
        {
            if tx_hash_eq(&self.txs[i].hash, hash) {
                let ghost k = hash_index(self@, hash@);
                assert(self@[i as int].hash == hash@);
                assert(0 <= k < self@.len() && self@[k].hash == hash@);
                return Some(i);
            }
            i = i + 1;
        }
        None
    }

    fn index_of_oldest(&self) -> (r: usize)
        requires
            uuids_unique(self@),
            self@.len() > 0,
        ensures
            is_oldest(self@, r as int),
            r == oldest_index(self@),
    {
        let mut best: usize = 0;
        let mut i: usize = 1;
        while i < self.txs.len()
            invariant
                1 <= i <= self.txs@.len(),
                uuids_unique(self@),
                best < i,
                forall|j: int| 0 <= j < i ==> self@[best as int].uuid_v7 <= self@[j].uuid_v7,
            decreases self.txs@.len() - i,
        {
            if self.txs[i].incremental_id < self.txs[best].incremental_id {
                best = i;
            }
            i = i + 1;
        }
        let ghost k = oldest_index(self@);
        assert(is_oldest(self@, best as int));
        assert(is_oldest(self@, k));
        assert(self@[k].uuid_v7 == self@[best as int].uuid_v7);
        best
    }

    /// The most transactions the mempool holds.
    pub fn mempool_max_txs_count(&self) -> (r: usize)
        ensures
            r == self.capacity(),
    {
        self.mempool_max_txs_count
    }

    /// The number of transactions.
    pub fn len(&self) -> (r: usize)
        ensures
            r == self@.len(),
    {
        self.txs.len()
    }

    /// Whether a transaction with the given hash is in the mempool.
    pub fn contains(&self, hash: &TxHash) -> (r: bool)
        requires
            self.wf(),
        ensures
            r == contains_hash(self@, hash@),
    {
        self.index_of_hash(hash).is_some()
    }

    /// Removes the transaction with the given hash, if present.
    fn remove_tx_from_memory(&mut self, hash: &TxHash)
        requires
            old(self).wf(),
        ensures
            final(self).wf(),
            final(self).capacity() == old(self).capacity(),
            final(self).next_id() == old(self).next_id(),
            final(self)@ == without_hash(old(self)@, hash@),
    {
        if let Some(i) = self.index_of_hash(hash) {
            let ghost before = self@;
            self.txs.remove(i);
            assert(self@ =~= before.remove(i as int));
            assert forall|a: int| 0 <= a < self@.len() implies 1 <= (#[trigger] self@[a]).uuid_v7
                < self.next_incr_id by {
                if a < i {
                    assert(self@[a] == before[a]);
                } else {
                    assert(self@[a] == before[a + 1]);
                }
            }
        }
    }

    /// Removes the transactions with the given hashes, e.g. once they were
    /// published in a batch.
    pub fn remove_atomically(&mut self, hashes: &Vec<TxHash>)
        requires
            old(self).wf(),
        ensures
            final(self).wf(),
            final(self).capacity() == old(self).capacity(),
            final(self).next_id() == old(self).next_id(),
            final(self)@ == without_hashes(old(self)@, hashes@.map_values(|h: TxHash| h@)),
    {
        let ghost hs = hashes@.map_values(|h: TxHash| h@);
        let mut i: usize = 0;
        assert(hs.take(0) =~= Seq::<Seq<u8>>::empty());
        while i < hashes.len()
            invariant
                0 <= i <= hashes@.len(),
                hs == hashes@.map_values(|h: TxHash| h@),
                self.wf(),
                self.capacity() == old(self).capacity(),
                self.next_id() == old(self).next_id(),
                self@ == without_hashes(old(self)@, hs.take(i as int)),
            decreases hashes@.len() - i,
        {
            self.remove_tx_from_memory(&hashes[i]);
            assert(hs.take(i + 1).drop_last() =~= hs.take(i as int));
            i = i + 1;
        }
        assert(hs.take(hashes@.len() as int) =~= hs);
    }

    /// Adds a transaction, then evicts the oldest transaction while there
    /// are too many. Returns the hashes of the evicted transactions.
    pub fn add(&mut self, tx: MempoolTx) -> (evicted: Vec<TxHash>)
        requires
            old(self).wf(),
            !contains_hash(old(self)@, tx@.hash),
            forall|i: int|
                0 <= i < old(self)@.len() ==> (#[trigger] old(self)@[i]).uuid_v7 != tx.incremental_id,
            1 <= tx.incremental_id < old(self).next_id(),
        ensures
            final(self).wf(),
            final(self).capacity() == old(self).capacity(),
            final(self).next_id() == old(self).next_id(),
            final(self)@ == fair_after_add(old(self)@, tx@, old(self).capacity()),
            evicted@.map_values(|h: TxHash| h@) == fair_evicted_by_add(
                old(self)@,
                tx@,
                old(self).capacity(),
            ),
    {
        let ghost s = self@;
        let ghost tv = tx@;
        let ghost max = self.mempool_max_txs_count as nat;
        let ghost p = s.push(tv);
        self.txs.push(tx);
        assert(self@ =~= p);
        assert(hashes_unique(p) && uuids_unique(p)) by {
            assert forall|i: int, j: int|
                0 <= i < p.len() && 0 <= j < p.len() && i != j implies p[i].hash != p[j].hash
                && p[i].uuid_v7 != p[j].uuid_v7 by {
                if i < s.len() && j < s.len() {
                    assert(p[i] == s[i] && p[j] == s[j]);
                } else if i < s.len() {
                    assert(p[i] == s[i]);
                } else {
                    assert(p[j] == s[j]);
                }
            }
        }
        let mut evicted: Vec<TxHash> = Vec::new();
        if self.txs.len() > self.mempool_max_txs_count {
            let o = self.index_of_oldest();
            let h = self.txs[o].hash;
            self.txs.remove(o);
            assert(self@ =~= p.remove(o as int));
            evicted.push(h);
            assert(evicted@.map_values(|h: TxHash| h@) =~= seq![p[o as int].hash]);
            assert forall|a: int, b: int|
                0 <= a < self@.len() && 0 <= b < self@.len() && a != b implies self@[a].hash
                != self@[b].hash && self@[a].uuid_v7 != self@[b].uuid_v7 by {
                let ja = if a < o { a } else { a + 1 };
                let jb = if b < o { b } else { b + 1 };
                assert(self@[a] == p[ja] && self@[b] == p[jb]);
            }
            assert forall|a: int| 0 <= a < self@.len() implies 1 <= (#[trigger] self@[a]).uuid_v7
                < self.next_incr_id by {
                let ja = if a < o { a } else { a + 1 };
                assert(self@[a] == p[ja]);
                if ja < s.len() {
                    assert(p[ja] == s[ja]);
                }
            }
        } else {
            assert(evicted@.map_values(|h: TxHash| h@) =~= Seq::<Seq<u8>>::empty());
            assert forall|a: int| 0 <= a < self@.len() implies 1 <= (#[trigger] self@[a]).uuid_v7
                < self.next_incr_id by {
                if a < s.len() {
                    assert(p[a] == s[a]);
                }
            }
        }
        evicted
    }

    /// Adds a transaction unless one with the same hash is already there, in
    /// which case the stored one is returned and nothing changes. A new
    /// transaction gets the next incremental identifier. Returns the
    /// transaction and the hashes of those evicted to make room for it.
    pub fn add_new_tx(&mut self, hash: TxHash, raw: Vec<u8>) -> (r: (MempoolTx, Vec<TxHash>))
        requires
            old(self).wf(),
            old(self).next_id() < u64::MAX,
        ensures
            final(self).wf(),
            final(self).capacity() == old(self).capacity(),
            contains_hash(old(self)@, hash@) ==> {
                &&& *final(self) == *old(self)
                &&& r.0@ == old(self)@[hash_index(old(self)@, hash@)]
                &&& r.1@.len() == 0
            },
            !contains_hash(old(self)@, hash@) ==> {
                &&& r.0@ == SeqDbTxView {
                    tx: raw@,
                    hash: hash@,
                    uuid_v7: old(self).next_id() as u128,
                }
                &&& final(self)@ == fair_after_add(old(self)@, r.0@, old(self).capacity())
                &&& r.1@.map_values(|h: TxHash| h@) == fair_evicted_by_add(
                    old(self)@,
                    r.0@,
                    old(self).capacity(),
                )
                &&& final(self).next_id() == old(self).next_id() + 1
            },
    {
        if let Some(i) = self.index_of_hash(&hash) {
            return (self.txs[i].duplicate(), Vec::new());
        }
        let tx = MempoolTx::new(hash, raw, self.next_incr_id);
        let copy = tx.duplicate();
        self.next_incr_id = self.next_incr_id + 1;
        let evicted = self.add(tx);
        (copy, evicted)
    }

    /// Fetches the first transaction that comes after `cursor`, if any, and
    /// moves the cursor onto it.
    pub fn next(&self, cursor: &mut MempoolCursor) -> (r: Option<MempoolTx>)
        requires
            self.wf(),
        ensures
            match r {
                Some(t) => exists|i: int|
                    is_fair_next_after(self@, *old(cursor), i) && t@ == #[trigger] self@[i]
                        && *final(cursor) == fair_cursor_of(self@[i]),
                None => (forall|j: int|
                    0 <= j < self@.len() ==> !fair_cursor_lt(
                        *old(cursor),
                        #[trigger] fair_cursor_of(self@[j]),
                    )) && *final(cursor) == *old(cursor),
            },
    {
        let c = *cursor;
        let mut best: Option<usize> = None;
        let mut i: usize = 0;
        while i < self.txs.len()
            invariant
                0 <= i <= self.txs@.len(),
                self.wf(),
                match best {
                    Some(b) => b < i && fair_cursor_lt(c, fair_cursor_of(self@[b as int]))
                        && forall|j: int|
                        0 <= j < i && fair_cursor_lt(c, #[trigger] fair_cursor_of(self@[j]))
                            ==> !fair_cursor_lt(
                            fair_cursor_of(self@[j]),
                            fair_cursor_of(self@[b as int]),
                        ),
                    None => forall|j: int|
                        0 <= j < i ==> !fair_cursor_lt(c, #[trigger] fair_cursor_of(self@[j])),
                },
            decreases self.txs@.len() - i,
        {
            let ci = MempoolCursor {
                tx_size_in_bytes: self.txs[i].tx_bytes.len(),
                incremental_id: self.txs[i].incremental_id,
            };
            assert(ci == fair_cursor_of(self@[i as int]));
            if c.precedes(&ci) {
                match best {
                    None => {
                        best = Some(i);
                    },
                    Some(b) => {
                        let cb = MempoolCursor {
                            tx_size_in_bytes: self.txs[b].tx_bytes.len(),
                            incremental_id: self.txs[b].incremental_id,
                        };
                        assert(cb == fair_cursor_of(self@[b as int]));
                        if ci.precedes(&cb) {
                            proof {
                                assert forall|j: int|
                                    0 <= j < i + 1 && fair_cursor_lt(
                                        c,
                                        #[trigger] fair_cursor_of(self@[j]),
                                    ) implies !fair_cursor_lt(fair_cursor_of(self@[j]), ci) by {
                                    if j < i && fair_cursor_lt(fair_cursor_of(self@[j]), ci) {
                                        lemma_fair_cursor_order(fair_cursor_of(self@[j]), ci, cb);
                                    }
                                }
                            }
                            best = Some(i);
                        }
                    },
                }
            }
            i = i + 1;
        }
        match best {
            None => None,
            Some(b) => {
                let t = self.txs[b].duplicate();
                *cursor = MempoolCursor {
                    tx_size_in_bytes: self.txs[b].tx_bytes.len(),
                    incremental_id: self.txs[b].incremental_id,
                };
                assert(is_fair_next_after(self@, c, b as int));
                Some(t)
            },
        }
    }

    fn max_incremental_id(&self) -> (r: u64)
        ensures
            r == max_id(self@),
    {
        let ghost all = self@;
        let mut m: u64 = 0;
        let mut i: usize = 0;
        while i < self.txs.len()
            invariant
                0 <= i <= self.txs@.len(),
                all == self@,
                m == max_id(all.take(i as int)),
            decreases self.txs@.len() - i,
        {
            assert(all.take(i + 1).drop_last() =~= all.take(i as int));
            assert(all.take(i + 1).last() == all[i as int]);
            if self.txs[i].incremental_id >= m {
                m = self.txs[i].incremental_id;
            }
            i = i + 1;
        }
        assert(all.take(all.len() as int) =~= all);
        m
    }

    /// Creates a mempool holding at most `mempool_max_txs_count`
    /// transactions and restores the stored ones into it, in order, evicting
    /// as if each had just been added. The next identifier follows the
    /// greatest one kept. Returns the mempool and the hashes of the evicted
    /// transactions.
    pub fn new(mempool_max_txs_count: usize, txs: Vec<MempoolTx>) -> (r: (FairMempool, Vec<TxHash>))
        requires
            hashes_unique(txs@.map_values(|t: MempoolTx| t@)),
            uuids_unique(txs@.map_values(|t: MempoolTx| t@)),
            forall|i: int| 0 <= i < txs@.len() ==> 1 <= (#[trigger] txs@[i]).incremental_id < u64::MAX,
        ensures
            r.0.wf(),
            r.0.capacity() == mempool_max_txs_count,
            r.0@ == fair_restore(mempool_max_txs_count as nat, txs@.map_values(|t: MempoolTx| t@)),
            r.1@.map_values(|h: TxHash| h@) == fair_restore_evicted(
                mempool_max_txs_count as nat,
                txs@.map_values(|t: MempoolTx| t@),
            ),
            r.0.next_id() == max_id(r.0@) + 1,
    {
        let ghost all = txs@.map_values(|t: MempoolTx| t@);
        let ghost max = mempool_max_txs_count as nat;
        let mut upper: u64 = 1;
        let mut k: usize = 0;
        while k < txs.len()
            invariant
                0 <= k <= txs@.len(),
                all == txs@.map_values(|t: MempoolTx| t@),
                forall|i: int| 0 <= i < txs@.len() ==> 1 <= (#[trigger] txs@[i]).incremental_id < u64::MAX,
                1 <= upper,
                forall|i: int| 0 <= i < k ==> (#[trigger] txs@[i]).incremental_id < upper,
            decreases txs@.len() - k,
        {
            if txs[k].incremental_id >= upper {
                upper = txs[k].incremental_id + 1;
            }
            k = k + 1;
        }
        let mut mempool = FairMempool { mempool_max_txs_count, next_incr_id: upper, txs: Vec::new() };
        let mut evicted_all: Vec<TxHash> = Vec::new();
        let mut rest = txs;
        let n = rest.len();
        let mut i: usize = 0;
        assert(mempool@ =~= fair_restore(max, all.take(0)));
        assert(evicted_all@.map_values(|h: TxHash| h@) =~= fair_restore_evicted(max, all.take(0)));
        while i < n
            invariant
                0 <= i <= n,
                n == all.len(),
                rest@.map_values(|t: MempoolTx| t@) == all.skip(i as int),
                rest@.len() == n - i,
                hashes_unique(all),
                uuids_unique(all),
                forall|j: int| 0 <= j < all.len() ==> 1 <= (#[trigger] all[j]).uuid_v7 < upper,
                mempool.wf(),
                mempool.capacity() == max,
                mempool.next_id() == upper,
                mempool@ == fair_restore(max, all.take(i as int)),
                forall|j: int|
                    0 <= j < mempool@.len() ==> all.take(i as int).contains(#[trigger] mempool@[j]),
                evicted_all@.map_values(|h: TxHash| h@) == fair_restore_evicted(
                    max,
                    all.take(i as int),
                ),
            decreases n - i,
        {
            let ghost pre = all.take(i as int);
            let ghost post = all.take(i + 1);
            assert(post.drop_last() =~= pre);
            assert(rest@.map_values(|t: MempoolTx| t@)[0] == all[i as int]);
            let ghost rv = rest@;
            let tx = rest.remove(0);
            assert(tx@ == all[i as int]);
            proof {
                assert(1 <= all[i as int].uuid_v7 < upper);
                assert forall|k: int| 0 <= k < mempool@.len() implies mempool@[k].hash != tx@.hash
                    && (#[trigger] mempool@[k]).uuid_v7 != tx.incremental_id by {
                    assert(pre.contains(mempool@[k]));
                    let j = choose|j: int| 0 <= j < pre.len() && pre[j] == mempool@[k];
                    assert(pre[j] == all[j]);
                }
            }
            let ghost before = mempool@;
            let ghost old_evicted = evicted_all@.map_values(|h: TxHash| h@);
            let evicted = mempool.add(tx);
            assert(post.last() == all[i as int]);
            assert(mempool@ == fair_restore(max, post));
            let mut j: usize = 0;
            while j < evicted.len()
                invariant
                    0 <= j <= evicted@.len(),
                    evicted_all@.map_values(|h: TxHash| h@) == old_evicted + evicted@.map_values(
                        |h: TxHash| h@,
                    ).take(j as int),
                decreases evicted@.len() - j,
            {
                let ghost e0 = evicted_all@.map_values(|h: TxHash| h@);
                evicted_all.push(evicted[j]);
                assert(evicted_all@.map_values(|h: TxHash| h@) =~= e0.push(evicted@[j as int]@));
                assert(evicted@.map_values(|h: TxHash| h@).take(j + 1) =~= evicted@.map_values(
                    |h: TxHash| h@,
                ).take(j as int).push(evicted@[j as int]@));
                j = j + 1;
            }
            proof {
                assert(evicted@.map_values(|h: TxHash| h@).take(evicted@.len() as int)
                    =~= evicted@.map_values(|h: TxHash| h@));
                assert forall|k: int| 0 <= k < rest@.len() implies rest@[k]@ == all.skip(i + 1)[k] by {
                    assert(rest@[k] == rv[k + 1]);
                    assert(rv.map_values(|t: MempoolTx| t@)[k + 1] == all.skip(i as int)[k + 1]);
                }
                assert(rest@.map_values(|t: MempoolTx| t@) =~= all.skip(i + 1));
                lemma_fair_after_add_subset(before, all[i as int], max);
                assert forall|k: int| 0 <= k < mempool@.len() implies post.contains(
                    #[trigger] mempool@[k],
                ) by {
                    if mempool@[k] == all[i as int] {
                        assert(post[i as int] == all[i as int]);
                    } else {
                        assert(before.contains(mempool@[k]));
                        let j = choose|j: int| 0 <= j < before.len() && before[j] == mempool@[k];
                        assert(pre.contains(before[j]));
                        let l = choose|l: int| 0 <= l < pre.len() && pre[l] == before[j];
                        assert(post[l] == pre[l]);
                    }
                }
            }
            i = i + 1;
        }
        assert(all.take(n as int) =~= all);
        let m = mempool.max_incremental_id();
        proof {
            lemma_max_id(mempool@);
            if mempool@.len() > 0 {
                let j = choose|j: int| 0 <= j < mempool@.len() && mempool@[j].uuid_v7 == max_id(mempool@);
                assert(mempool@[j].uuid_v7 < upper);
            }
        }
        mempool.next_incr_id = m + 1;
        (mempool, evicted_all)
    }
}

} // verus!