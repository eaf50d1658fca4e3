//! The standard sequencer's mempool.
//!
//! Transactions leave the mempool in a "fair" order: largest first, then least
//! recent first. When the mempool is full, the oldest transaction is evicted.
use vstd::prelude::*;

use crate::ids::now_v7_as_u128;
use crate::types::{tx_hash_eq, FullyBakedTx, TxHash};

verus! {

/// A position in the mempool's iteration order.
///
/// Cursors are ordered by transaction size (largest first) and then by
/// identifier (least recent first).
#[derive(Clone, Copy, Debug, PartialEq, Eq)]
pub struct MempoolCursor {
    pub tx_size_in_bytes: usize,
    pub uuid_v7: u128,
}

/// `a` comes strictly before `b` in the mempool's iteration order.
pub open spec fn cursor_lt(a: MempoolCursor, b: MempoolCursor) -> bool {
    ||| a.tx_size_in_bytes > b.tx_size_in_bytes
    ||| (a.tx_size_in_bytes == b.tx_size_in_bytes && a.uuid_v7 < b.uuid_v7)
}

impl MempoolCursor {
    /// The cursor that precedes every transaction of at most
    /// `tx_size_in_bytes` bytes (save one of that size with identifier 0).
    pub fn new(tx_size_in_bytes: usize) -> (r: Self)
        ensures
            r.tx_size_in_bytes == tx_size_in_bytes,
            r.uuid_v7 == 0,
    {
        MempoolCursor { tx_size_in_bytes, uuid_v7: 0 }
    }

    /// The cursor of a stored transaction.
    pub fn from_db_tx(tx: &SeqDbTx) -> (r: Self)
        ensures
            r == cursor_of(tx@),
    {
        MempoolCursor { tx_size_in_bytes: tx.tx.data.len(), uuid_v7: tx.uuid_v7 }
    }

    /// Whether `self` comes strictly before `other`.
    pub fn precedes(&self, other: &Self) -> (r: bool)
        ensures
            r == cursor_lt(*self, *other),
    {
        self.tx_size_in_bytes > other.tx_size_in_bytes || (self.tx_size_in_bytes
            == other.tx_size_in_bytes && self.uuid_v7 < other.uuid_v7)
    }

    /// The later of the two cursors.
    pub fn max_cursor(self, other: Self) -> (r: Self)
        ensures
            r == (if cursor_lt(other, self) { self } else { other }),
    {
        if other.precedes(&self) {
            self
        } else {
            other
        }
    }
}

/// The cursor order is irreflexive.
pub proof fn lemma_cursor_lt_irreflexive(a: MempoolCursor)
    ensures
        !cursor_lt(a, a),
{
}

/// The cursor order is transitive.
pub proof fn lemma_cursor_lt_transitive(a: MempoolCursor, b: MempoolCursor, c: MempoolCursor)
    requires
        cursor_lt(a, b),
        cursor_lt(b, c),
    ensures
        cursor_lt(a, c),
{
}

/// Any two distinct cursors are ordered one way or the other, never both.
pub proof fn lemma_cursor_lt_total(a: MempoolCursor, b: MempoolCursor)
    ensures
        a == b || cursor_lt(a, b) || cursor_lt(b, a),
        !(cursor_lt(a, b) && cursor_lt(b, a)),
{
}

/// The abstract contents of a [`SeqDbTx`].
pub struct SeqDbTxView {
    pub tx: Seq<u8>,
    pub hash: Seq<u8>,
    pub uuid_v7: u128,
}

/// A transaction as stored by the sequencer, with its hash and an identifier
/// that orders transactions by the time they were received.
#[derive(Debug)]
pub struct SeqDbTx {
    /// The encoded transaction.
    pub tx: FullyBakedTx,
    /// The hash of the transaction.
    pub hash: TxHash,
    /// A time-ordered identifier. Gaps are allowed.
    pub uuid_v7: u128,
}

impl View for SeqDbTx {
    type V = SeqDbTxView;

    open spec fn view(&self) -> SeqDbTxView {
        SeqDbTxView { tx: self.tx.data@, hash: self.hash@, uuid_v7: self.uuid_v7 }
    }
}

/// The cursor of a stored transaction.
pub open spec fn cursor_of(t: SeqDbTxView) -> MempoolCursor {
    MempoolCursor { tx_size_in_bytes: t.tx.len() as usize, uuid_v7: t.uuid_v7 }
}

impl SeqDbTx {
    /// Wraps a transaction with its hash and a fresh time-ordered identifier.
    pub fn new(hash: TxHash, tx: FullyBakedTx) -> (r: Self)
        ensures
            r.hash@ == hash@,
            r.tx.data@ == tx.data@,
    {
        SeqDbTx { tx, hash, uuid_v7: now_v7_as_u128() }
    }

    /// A copy of this transaction.
    pub fn duplicate(&self) -> (r: Self)
        ensures
            r@ == self@,
    {
        let data = self.tx.data.clone();
        assert(data@ =~= self.tx.data@);
        SeqDbTx { tx: FullyBakedTx { data }, hash: self.hash, uuid_v7: self.uuid_v7 }
    }
}


/// A notification that a transaction left the mempool without being included
/// in a batch.
#[derive(Debug)]
pub struct TxDropNotice {
    /// The hash of the dropped transaction.
    pub hash: TxHash,
    /// Why it was dropped.
    pub reason: String,
}

/// Every hash occurs at most once.
pub open spec fn hashes_unique(s: Seq<SeqDbTxView>) -> bool {
    forall|i: int, j: int| 0 <= i < s.len() && 0 <= j < s.len() && i != j ==> s[i].hash != s[j].hash
}

/// Every identifier occurs at most once.
pub open spec fn uuids_unique(s: Seq<SeqDbTxView>) -> bool {
    forall|i: int, j: int|
        0 <= i < s.len() && 0 <= j < s.len() && i != j ==> s[i].uuid_v7 != s[j].uuid_v7
}

/// Some transaction has the hash `h`.
pub open spec fn contains_hash(s: Seq<SeqDbTxView>, h: Seq<u8>) -> bool {
    exists|i: int| 0 <= i < s.len() && s[i].hash == h
}

/// Some transaction has the identifier `id`.
pub open spec fn contains_uuid(s: Seq<SeqDbTxView>, id: u128) -> bool {
    exists|i: int| 0 <= i < s.len() && s[i].uuid_v7 == id
}

/// The position of the transaction with hash `h`.
pub open spec fn hash_index(s: Seq<SeqDbTxView>, h: Seq<u8>) -> int {
    choose|i: int| 0 <= i < s.len() && s[i].hash == h
}

/// The transactions left once the one with hash `h`, if any, is removed.
pub open spec fn without_hash(s: Seq<SeqDbTxView>, h: Seq<u8>) -> Seq<SeqDbTxView> {
    if contains_hash(s, h) {
        s.remove(hash_index(s, h))
    } else {
        s
    }
}

/// The transactions left once those with the hashes `hs` are removed, one
/// after the other.
pub open spec fn without_hashes(s: Seq<SeqDbTxView>, hs: Seq<Seq<u8>>) -> Seq<SeqDbTxView>
    decreases hs.len(),
{
    if hs.len() == 0 {
        s
    } else {
        without_hash(without_hashes(s, hs.drop_last()), hs.last())
    }
}

/// Removing the transaction with hash `h` keeps every other transaction,
/// adds none, and keeps hashes unique; with unique hashes, none with hash
/// `h` is left.
pub proof fn lemma_without_hash_members(s: Seq<SeqDbTxView>, h: Seq<u8>)
    ensures
        forall|t: SeqDbTxView| #[trigger] without_hash(s, h).contains(t) ==> s.contains(t),
        forall|t: SeqDbTxView| s.contains(t) && t.hash != h ==> #[trigger] without_hash(s, h).contains(t),
        hashes_unique(s) ==> hashes_unique(without_hash(s, h)),
        hashes_unique(s) ==> !contains_hash(without_hash(s, h), h),
{
    if contains_hash(s, h) {
        let k = hash_index(s, h);
        let r = s.remove(k);
        assert forall|t: SeqDbTxView| #[trigger] r.contains(t) implies s.contains(t) by {
            let j = choose|j: int| 0 <= j < r.len() && r[j] == t;
            if j < k {
                assert(s[j] == t);
            } else {
                assert(s[j + 1] == t);
            }
        }
        assert forall|t: SeqDbTxView| s.contains(t) && t.hash != h implies #[trigger] r.contains(t) by {
            let j = choose|j: int| 0 <= j < s.len() && s[j] == t;
            if j < k {
                assert(r[j] == t);
            } else {
                assert(j != k);
                assert(r[j - 1] == t);
            }
        }
        if hashes_unique(s) {
            assert forall|a: int, b: int|
                0 <= a < r.len() && 0 <= b < r.len() && a != b implies r[a].hash != r[b].hash by {
                let sa = if a < k { a } else { a + 1 };
                let sb = if b < k { b } else { b + 1 };
                assert(r[a] == s[sa] && r[b] == s[sb]);
            }
            if contains_hash(r, h) {
                let j = choose|j: int| 0 <= j < r.len() && r[j].hash == h;
                let sj = if j < k { j } else { j + 1 };
                assert(r[j] == s[sj]);
                assert(s[k].hash == h);
            }
        }
    }
}

/// With unique hashes, removing the transactions with the hashes `hs` one
/// after the other leaves none with any of those hashes, adds none, and keeps
/// hashes unique.
pub proof fn lemma_without_hashes_removes(s: Seq<SeqDbTxView>, hs: Seq<Seq<u8>>)
    requires
        hashes_unique(s),
    ensures
        hashes_unique(without_hashes(s, hs)),
        forall|t: SeqDbTxView| #[trigger] without_hashes(s, hs).contains(t) ==> s.contains(t),
        forall|j: int| 0 <= j < hs.len() ==> !contains_hash(without_hashes(s, hs), #[trigger] hs[j]),
    decreases hs.len(),
{
    if hs.len() > 0 {
        let p = hs.drop_last();
        let r = without_hashes(s, p);
        lemma_without_hashes_removes(s, p);
        lemma_without_hash_members(r, hs.last());
        let r2 = without_hash(r, hs.last());
        assert(r2 == without_hashes(s, hs));
        assert forall|j: int| 0 <= j < hs.len() implies !contains_hash(r2, #[trigger] hs[j]) by {
            if j < hs.len() - 1 {
                assert(hs[j] == p[j]);
                if contains_hash(r2, hs[j]) {
                    let x = choose|x: int| 0 <= x < r2.len() && r2[x].hash == hs[j];
                    assert(r2.contains(r2[x]));
                    assert(r.contains(r2[x]));
                }
            }
        }
    }
}

/// `i` is the position of a transaction with the smallest identifier.
pub open spec fn is_oldest(s: Seq<SeqDbTxView>, i: int) -> bool {
    &&& 0 <= i < s.len()
    &&& forall|j: int| 0 <= j < s.len() ==> s[i].uuid_v7 <= s[j].uuid_v7
}

/// The position of the oldest transaction.
pub open spec fn oldest_index(s: Seq<SeqDbTxView>) -> int {
    choose|i: int| is_oldest(s, i)
}

/// A nonempty sequence of transactions has an oldest one.
pub proof fn lemma_oldest_exists(s: Seq<SeqDbTxView>)
    requires
        s.len() > 0,
    ensures
        is_oldest(s, oldest_index(s)),
    decreases s.len(),
{
    if s.len() == 1 {
        assert(is_oldest(s, 0));
    } else {
        let p = s.drop_last();
        lemma_oldest_exists(p);
        let k = oldest_index(p);
        assert(forall|j: int| 0 <= j < p.len() ==> p[j] == s[j]);
        if s[k].uuid_v7 <= s.last().uuid_v7 {
            assert(is_oldest(s, k));
        } else {
            assert(is_oldest(s, s.len() - 1));
        }
    }
}

/// No transaction uses the identifier `c`.
pub open spec fn uuid_free(s: Seq<SeqDbTxView>, c: int) -> bool {
    !contains_uuid(s, c as u128)
}

/// Among `0..=s.len()` there is an identifier that no transaction uses.
pub proof fn lemma_small_free_uuid_exists(s: Seq<SeqDbTxView>)
    requires
        s.len() < u128::MAX,
    ensures
        exists|c: int| 0 <= c <= s.len() && #[trigger] uuid_free(s, c),
{
    broadcast use vstd::seq_lib::seq_to_set_is_finite;

    if forall|c: int| 0 <= c <= s.len() ==> !#[trigger] uuid_free(s, c) {
        let ids = s.map_values(|t: SeqDbTxView| t.uuid_v7 as int);
        let range = vstd::set_lib::set_int_range(0, s.len() + 1int);
        assert(range.subset_of(ids.to_set())) by {
            assert forall|x: int| range.contains(x) implies ids.to_set().contains(x) by {
                assert(!uuid_free(s, x));
                let i = choose|i: int| 0 <= i < s.len() && s[i].uuid_v7 == x as u128;
                assert(ids[i] == x);
            }
        }
        ids.lemma_cardinality_of_set();
        vstd::set_lib::lemma_int_range(0, s.len() + 1int);
        vstd::set_lib::lemma_len_subset(range, ids.to_set());
        assert(false);
    }
}

/// `i` is the position of the first transaction that comes after `c` in the
/// iteration order.
pub open spec fn is_next_after(s: Seq<SeqDbTxView>, c: MempoolCursor, i: int) -> bool {
    &&& 0 <= i < s.len()
    &&& cursor_lt(c, cursor_of(s[i]))
    &&& forall|j: int|
        0 <= j < s.len() && cursor_lt(c, #[trigger] cursor_of(s[j])) ==> !cursor_lt(
            cursor_of(s[j]),
            cursor_of(s[i]),
        )
}

/// The transactions left once room has been made for one more transaction
/// in a mempool holding at most `max` transactions: the oldest one goes when
/// the mempool is full.
pub open spec fn after_eviction(s: Seq<SeqDbTxView>, max: nat) -> Seq<SeqDbTxView> {
    if s.len() >= max && s.len() > 0 {
        s.remove(oldest_index(s))
    } else {
        s
    }
}

/// The transactions a mempool of capacity `max` holds once each of `s` has
/// been added, in order, to an empty one.
pub open spec fn restore(max: nat, s: Seq<SeqDbTxView>) -> Seq<SeqDbTxView>
    decreases s.len(),
{
    if s.len() == 0 {
        Seq::empty()
    } else {
        after_eviction(restore(max, s.drop_last()), max).push(s.last())
    }
}

/// The hashes of the transactions evicted while each of `s` is added, in
/// order, to an empty mempool of capacity `max`.
pub open spec fn restore_evicted(max: nat, s: Seq<SeqDbTxView>) -> Seq<Seq<u8>>
    decreases s.len(),
{
    if s.len() == 0 {
        Seq::empty()
    } else {
        let p = restore(max, s.drop_last());
        restore_evicted(max, s.drop_last()) + if p.len() >= max && p.len() > 0 {
            seq![p[oldest_index(p)].hash]
        } else {
            Seq::empty()
        }
    }
}

/// Every transaction left after room is made was there before.
pub proof fn lemma_after_eviction_subset(s: Seq<SeqDbTxView>, max: nat)
    ensures
        forall|k: int|
            0 <= k < after_eviction(s, max).len() ==> s.contains(
                #[trigger] after_eviction(s, max)[k],
            ),
        after_eviction(s, max).len() <= s.len(),
{
    let a = after_eviction(s, max);
    if s.len() >= max && s.len() > 0 {
        lemma_oldest_exists(s);
        let o = oldest_index(s);
        assert forall|k: int| 0 <= k < a.len() implies s.contains(#[trigger] a[k]) by {
            if k < o {
                assert(a[k] == s[k]);
            } else {
                assert(a[k] == s[k + 1]);
            }
        }
    } else {
        assert forall|k: int| 0 <= k < a.len() implies s.contains(#[trigger] a[k]) by {
            assert(a[k] == s[k]);
        }
    }
}

/// Every transaction of a restored mempool is one of those it was restored from.
pub proof fn lemma_restore_subset(max: nat, s: Seq<SeqDbTxView>)
    ensures
        forall|k: int| 0 <= k < restore(max, s).len() ==> s.contains(#[trigger] restore(max, s)[k]),
        restore(max, s).len() <= s.len(),
    decreases s.len(),
{
    if s.len() > 0 {
        let p = s.drop_last();
        lemma_restore_subset(max, p);
        let q = restore(max, p);
        lemma_after_eviction_subset(q, max);
        let a = after_eviction(q, max);
        let r = restore(max, s);
        assert(r == a.push(s.last()));
        assert forall|k: int| 0 <= k < r.len() implies s.contains(#[trigger] r[k]) by {
            if k == a.len() {
                assert(r[k] == s[s.len() - 1]);
            } else {
                assert(r[k] == a[k]);
                assert(q.contains(a[k]));
                let j1 = choose|j1: int| 0 <= j1 < q.len() && q[j1] == a[k];
                assert(p.contains(q[j1]));
                let j2 = choose|j2: int| 0 <= j2 < p.len() && p[j2] == q[j1];
                assert(p[j2] == s[j2]);
            }
        }
    }
}

/// A mempool with a bounded number of transactions.
///
/// It holds transactions in memory only. A caller that keeps them in a
/// store as well must write each change there first (the addition, and the
/// removal of the transactions whose drop notices are returned) and only
/// then make it here.
pub struct Mempool {
    max_txs_count: usize,
    txs: Vec<SeqDbTx>,
}

impl View for Mempool {
    type V = Seq<SeqDbTxView>;

    closed spec fn view(&self) -> Seq<SeqDbTxView> {
        self.txs@.map_values(|t: SeqDbTx| t@)
    }
}

impl Mempool {
    /// The greatest number of transactions the mempool holds.
    pub closed spec fn capacity(&self) -> nat {
        self.max_txs_count as nat
    }

    /// The mempool's internal invariant.
    pub closed spec fn wf(&self) -> bool {
        &&& self.max_txs_count > 0
        &&& self.txs@.len() <= self.max_txs_count
        &&& hashes_unique(self@)
        &&& uuids_unique(self@)
    }

    /// What callers may rely on whenever the invariant holds.
    pub proof fn lemma_wf(&self)
        requires
            self.wf(),
        ensures
            self.capacity() > 0,
            self@.len() <= self.capacity(),
            hashes_unique(self@),
            uuids_unique(self@),
    {
    }

    fn index_of_hash(&self, hash: &TxHash) -> (r: Option<usize>)
        requires
            self.wf(),
        ensures
            match r {
                Some(i) => i < self@.len() && self@[i as int].hash == hash@ && i == hash_index(
                    self@,
                    hash@,
                ),
                None => !contains_hash(self@, hash@),
            },
    {
        let mut i: usize = 0;
        while i < self.txs.len()
            invariant
                0 <= i <= self.txs@.len(),
                self.wf(),
                forall|j: int| 0 <= j < i ==> self@[j].hash != hash@,
            decreases self.txs@.len() - i,
        {
            if tx_hash_eq(&self.txs[i].hash, hash) {
                assert(self@[i as int].hash == hash@);
                let ghost k = hash_index(self@, hash@);
                assert(0 <= k < self@.len() && self@[k].hash == hash@);
                return Some(i);
            }
            i = i + 1;
        }
        None
    }

    fn index_of_oldest(&self) -> (r: usize)
        requires
            self.wf(),
            self@.len() > 0,
        ensures
            is_oldest(self@, r as int),
            r == oldest_index(self@),
    {
        let mut best: usize = 0;
        let mut i: usize = 1;
        while i < self.txs.len()
            invariant
                1 <= i <= self.txs@.len(),
                self.wf(),
                best < i,
                forall|j: int| 0 <= j < i ==> self@[best as int].uuid_v7 <= self@[j].uuid_v7,
            decreases self.txs@.len() - i,
        {
            if self.txs[i].uuid_v7 < self.txs[best].uuid_v7 {
                best = i;
            }
            i = i + 1;
        }
        let ghost k = oldest_index(self@);
        assert(is_oldest(self@, best as int));
        assert(is_oldest(self@, k));
        assert(self@[k].uuid_v7 == self@[best as int].uuid_v7);
        best
    }

    /// The number of transactions in the mempool.
    pub fn len(&self) -> (r: usize)
        requires
            self.wf(),
        ensures
            r == self@.len(),
            r <= self.capacity(),
    {
        self.txs.len()
    }

    /// Whether a transaction with the given hash is in the mempool.
    pub fn contains(&self, hash: &TxHash) -> (r: bool)
        requires
            self.wf(),
        ensures
            r == contains_hash(self@, hash@),
    {
        self.index_of_hash(hash).is_some()
    }

    fn remove_at(&mut self, i: usize) -> (r: SeqDbTx)
        requires
            old(self).wf(),
            i < old(self)@.len(),
        ensures
            final(self).wf(),
            final(self)@ == old(self)@.remove(i as int),
            r@ == old(self)@[i as int],
            final(self).capacity() == old(self).capacity(),
    {
        let ghost before = self@;
        let r = self.txs.remove(i);
        assert(self@ =~= before.remove(i as int));
        r
    }

    /// Removes the transaction with the given hash, if present, without
    /// telling anyone.
    pub fn remove_without_notifying(&mut self, hash: &TxHash)
        requires
            old(self).wf(),
        ensures
            final(self).wf(),
            final(self).capacity() == old(self).capacity(),
            final(self)@ == without_hash(old(self)@, hash@),
    {
        if let Some(i) = self.index_of_hash(hash) {
            self.remove_at(i);
        }
    }

    /// Removes the transaction with the given hash, if present, and returns
    /// the notification that it was dropped for the given reason.
    pub fn drop(&mut self, hash: &TxHash, reason: String) -> (notice: TxDropNotice)
        requires
            old(self).wf(),
        ensures
            final(self).wf(),
            final(self).capacity() == old(self).capacity(),
            final(self)@ == without_hash(old(self)@, hash@),
            notice.hash@ == hash@,
            notice.reason@ == reason@,
    {
        self.remove_without_notifying(hash);
        TxDropNotice { hash: *hash, reason }
    }

    /// Evicts the oldest transaction while the mempool is full.
    fn make_space_for_tx(&mut self) -> (evicted: Vec<TxDropNotice>)
        requires
            old(self).wf(),
        ensures
            final(self).wf(),
            final(self).capacity() == old(self).capacity(),
            final(self)@ == after_eviction(old(self)@, old(self).capacity()),
            final(self)@.len() < final(self).capacity(),
            evicted@.len() == (if old(self)@.len() >= old(self).capacity() { 1int } else { 0int }),
            evicted@.len() == 1 ==> evicted@[0].hash@ == old(self)@[oldest_index(
                old(self)@,
            )].hash && evicted@[0].reason@ == "Mempool is full"@,
    {
        let mut evicted: Vec<TxDropNotice> = Vec::new();
        if self.txs.len() >= self.max_txs_count {
            let i = self.index_of_oldest();
            let hash = self.txs[i].hash;
            assert(old(self)@[i as int].hash == hash@);
            let notice = self.drop(&hash, "Mempool is full".to_owned());
            assert(hash_index(old(self)@, hash@) == i) by {
                let k = hash_index(old(self)@, hash@);
                assert(0 <= k < old(self)@.len() && old(self)@[k].hash == hash@);
            }
            evicted.push(notice);
        }
        evicted
    }

    /// Adds a transaction, evicting the oldest one first if the mempool is
    /// full. Returns the notifications of the evicted transactions.
    pub fn add(&mut self, tx: SeqDbTx) -> (evicted: Vec<TxDropNotice>)
        requires
            old(self).wf(),
            !contains_hash(old(self)@, tx@.hash),
            !contains_uuid(old(self)@, tx@.uuid_v7),
        ensures
            final(self).wf(),
            final(self).capacity() == old(self).capacity(),
            final(self)@ == after_eviction(old(self)@, old(self).capacity()).push(tx@),
            evicted@.len() == (if old(self)@.len() >= old(self).capacity() { 1int } else { 0int }),
            evicted@.len() == 1 ==> evicted@[0].hash@ == old(self)@[oldest_index(
                old(self)@,
            )].hash && evicted@[0].reason@ == "Mempool is full"@,
    {
        let ghost tv = tx@;
        let evicted = self.make_space_for_tx();
        let ghost mid = self@;
        proof {
            assert forall|i: int| 0 <= i < mid.len() implies mid[i].hash != tv.hash
                && mid[i].uuid_v7 != tv.uuid_v7 by {
                if old(self)@.len() >= old(self).capacity() && old(self)@.len() > 0 {
                    let k = oldest_index(old(self)@);
                    lemma_oldest_exists(old(self)@);
                    assert(mid == old(self)@.remove(k));
                    if i < k {
                        assert(mid[i] == old(self)@[i]);
                    } else {
                        assert(mid[i] == old(self)@[i + 1]);
                    }
                } else {
                    assert(mid == old(self)@);
                    assert(mid[i] == old(self)@[i]);
                }
            }
        }
        self.txs.push(tx);
        assert(self@ =~= mid.push(tv));
        evicted
    }

    fn uuid_in_use(&self, id: u128) -> (r: bool)
        requires
            self.wf(),
        ensures
            r == contains_uuid(self@, id),
    {
        let mut i: usize = 0;
        while i < self.txs.len()
            invariant
                0 <= i <= self.txs@.len(),
                self.wf(),
                forall|j: int| 0 <= j < i ==> self@[j].uuid_v7 != id,
            decreases self.txs@.len() - i,
        {
            if self.txs[i].uuid_v7 == id {
                assert(self@[i as int].uuid_v7 == id);
                return true;
            }
            i = i + 1;
        }
        false
    }

    /// The smallest identifier that no transaction in the mempool uses.
    fn smallest_free_uuid(&self) -> (r: u128)
        requires
            self.wf(),
        ensures
            !contains_uuid(self@, r),
            r <= self@.len(),
    {
        proof {
            lemma_small_free_uuid_exists(self@);
        }
        let n = self.txs.len();
        let mut c: usize = 0;
        while c < n
            invariant
                0 <= c <= n,
                n == self@.len(),
                self.wf(),
                forall|d: int| 0 <= d < c ==> !#[trigger] uuid_free(self@, d),
                exists|e: int| 0 <= e <= self@.len() && #[trigger] uuid_free(self@, e),
            decreases n - c,
        {
            if !self.uuid_in_use(c as u128) {
                return c as u128;
            }
            assert(!uuid_free(self@, c as int));
            c = c + 1;
        }
        let r = n as u128;
        if self.uuid_in_use(r) {
            assert(!uuid_free(self@, n as int));
            assert(false) by {
                let e = choose|e: int| 0 <= e <= self@.len() && #[trigger] uuid_free(self@, e);
                if e < n {
                    assert(!uuid_free(self@, e));
                }
            }
        }
        r
    }

    /// Adds a transaction unless one with the same hash is already present,
    /// in which case the stored one is returned and nothing changes.
    ///
    /// A new transaction gets the identifier `uuid_v7`, a time-ordered one
    /// drawn by the caller (see [`SeqDbTx::new`]), so that the oldest
    /// transaction is the one evicted first. Identifiers drawn in one process
    /// never collide; should the caller pass one already in use all the same,
    /// the smallest unused one is taken instead, which makes that transaction
    /// the first to be evicted. Returns the
    /// transaction and the notifications of the transactions evicted to make
    /// room for it.
    pub fn add_new_tx(&mut self, hash: TxHash, baked_tx: FullyBakedTx, uuid_v7: u128) -> (r: (
        SeqDbTx,
        Vec<TxDropNotice>,
    ))
        requires
            old(self).wf(),
        ensures
            final(self).wf(),
            final(self).capacity() == old(self).capacity(),
            contains_hash(old(self)@, hash@) ==> {
                &&& final(self)@ == old(self)@
                &&& r.0@ == old(self)@[hash_index(old(self)@, hash@)]
                &&& r.1@.len() == 0
            },
            !contains_hash(old(self)@, hash@) ==> {
                &&& r.0@.hash == hash@
                &&& r.0@.tx == baked_tx.data@
                &&& !contains_uuid(old(self)@, r.0@.uuid_v7)
                &&& !contains_uuid(old(self)@, uuid_v7) ==> r.0@.uuid_v7 == uuid_v7
                &&& final(self)@ == after_eviction(old(self)@, old(self).capacity()).push(r.0@)
                &&& r.1@.len() == (if old(self)@.len() >= old(self).capacity() {
                    1int
                } else {
                    0int
                })
                &&& r.1@.len() == 1 ==> r.1@[0].hash@ == old(self)@[oldest_index(
                    old(self)@,
                )].hash && r.1@[0].reason@ == "Mempool is full"@
            },
    {
        if let Some(i) = self.index_of_hash(&hash) {
            return (self.txs[i].duplicate(), Vec::new());
        }
        let mut tx = SeqDbTx { tx: baked_tx, hash, uuid_v7 };
        if self.uuid_in_use(uuid_v7) {
            tx.uuid_v7 = self.smallest_free_uuid();
        }
        let copy = tx.duplicate();
        let evicted = self.add(tx);
        (copy, evicted)
    }

    /// Creates a mempool holding at most `max_txs_count` transactions and
    /// restores the given transactions into it, in order, evicting as if each
    /// had just been added. Returns the mempool and the notifications of the
    /// evicted transactions.
    pub fn new(max_txs_count: usize, txs: Vec<SeqDbTx>) -> (r: (Mempool, Vec<TxDropNotice>))
        requires
            max_txs_count > 0,
            hashes_unique(txs@.map_values(|t: SeqDbTx| t@)),
            uuids_unique(txs@.map_values(|t: SeqDbTx| t@)),
        ensures
            r.0.wf(),
            r.0.capacity() == max_txs_count,
            r.0@ == restore(max_txs_count as nat, txs@.map_values(|t: SeqDbTx| t@)),
            r.1@.map_values(|n: TxDropNotice| n.hash@) == restore_evicted(
                max_txs_count as nat,
                txs@.map_values(|t: SeqDbTx| t@),
            ),
            forall|k: int| 0 <= k < r.1@.len() ==> (#[trigger] r.1@[k]).reason@ == "Mempool is full"@,
    {
        let ghost all = txs@.map_values(|t: SeqDbTx| t@);
        let ghost max = max_txs_count as nat;
        let mut mempool = Mempool { max_txs_count, txs: Vec::new() };
        let mut notices: Vec<TxDropNotice> = Vec::new();
        let mut rest = txs;
        let n = rest.len();
        let mut i: usize = 0;
        assert(mempool@ =~= restore(max, all.take(0)));
        assert(notices@.map_values(|m: TxDropNotice| m.hash@) =~= restore_evicted(max, all.take(0)));
        while i < n
            invariant
                0 <= i <= n,
                n == all.len(),
                rest@.map_values(|t: SeqDbTx| t@) == all.skip(i as int),
                rest@.len() == n - i,
                hashes_unique(all),
                uuids_unique(all),
                mempool.wf(),
                mempool.capacity() == max,
                max > 0,
                mempool@ == restore(max, all.take(i as int)),
                notices@.map_values(|m: TxDropNotice| m.hash@) == restore_evicted(
                    max,
                    all.take(i as int),
                ),
                forall|k: int| 0 <= k < notices@.len() ==> (#[trigger] notices@[k]).reason@
                    == "Mempool is full"@,
            decreases n - i,
        {
            let ghost pre = all.take(i as int);
            let ghost post = all.take(i + 1);
            assert(post.drop_last() =~= pre);
            assert(rest@.map_values(|t: SeqDbTx| t@)[0] == all[i as int]);
            let ghost rv = rest@;
            let tx = rest.remove(0);
            assert(tx@ == all[i as int]);
            proof {
                lemma_restore_subset(max, pre);
                assert forall|k: int| 0 <= k < mempool@.len() implies mempool@[k].hash != tx@.hash
                    && mempool@[k].uuid_v7 != tx@.uuid_v7 by {
                    assert(pre.contains(restore(max, pre)[k]));
                    let j = choose|j: int| 0 <= j < pre.len() && pre[j] == restore(max, pre)[k];
                    assert(pre[j] == all[j]);
                }
            }
            let ghost before = mempool@;
            let ghost old_notices = notices@;
            let evicted = mempool.add(tx);
            assert(post.last() == all[i as int]);
            assert(mempool@ == restore(max, post));
            let mut evicted = evicted;
            if evicted.len() > 0 {
                let e = evicted.pop().unwrap();
                notices.push(e);
            }
            proof {
                assert forall|k: int| 0 <= k < rest@.len() implies rest@[k]@ == all.skip(i + 1)[k] by {
                    assert(rest@[k] == rv[k + 1]);
                    assert(rv.map_values(|t: SeqDbTx| t@)[k + 1] == all.skip(i as int)[k + 1]);
                }
                assert(rest@.map_values(|t: SeqDbTx| t@) =~= all.skip(i + 1));
                let hs = notices@.map_values(|m: TxDropNotice| m.hash@);
                let ohs = old_notices.map_values(|m: TxDropNotice| m.hash@);
                if before.len() >= max && before.len() > 0 {
                    lemma_oldest_exists(before);
                    assert(hs =~= ohs + seq![before[oldest_index(before)].hash]);
                } else {
                    assert(hs =~= ohs);
                }
            }
            i = i + 1;
        }
        assert(all.take(n as int) =~= all);
        (mempool, notices)
    }

    /// Removes, without telling anyone, the transactions with the given
    /// hashes, e.g. once they have been published in a batch.
    pub fn remove_all_without_notifying(&mut self, hashes: &Vec<TxHash>)
        requires
            old(self).wf(),
        ensures
            final(self).wf(),
            final(self).capacity() == old(self).capacity(),
            final(self)@ == without_hashes(old(self)@, hashes@.map_values(|h: TxHash| h@)),
    {
        let ghost hs = hashes@.map_values(|h: TxHash| h@);
        let mut i: usize = 0;
        assert(hs.take(0) =~= Seq::<Seq<u8>>::empty());
        while i < hashes.len()
            invariant
                0 <= i <= hashes@.len(),
                hs == hashes@.map_values(|h: TxHash| h@),
                self.wf(),
                self.capacity() == old(self).capacity(),
                self@ == without_hashes(old(self)@, hs.take(i as int)),
            decreases hashes@.len() - i,
        {
            self.remove_without_notifying(&hashes[i]);
            assert(hs.take(i + 1).drop_last() =~= hs.take(i as int));
            i = i + 1;
        }
        assert(hs.take(hashes@.len() as int) =~= hs);
    }

    /// Fetches the first transaction that comes after `cursor`, if any, and
    /// moves the cursor onto it.
    pub fn next(&self, cursor: &mut MempoolCursor) -> (r: Option<SeqDbTx>)
        requires
            self.wf(),
        ensures
            match r {
                Some(t) => exists|i: int|
                    is_next_after(self@, *old(cursor), i) && t@ == #[trigger] self@[i]
                        && *final(cursor) == cursor_of(self@[i]),
                None => (forall|j: int|
                    0 <= j < self@.len() ==> !cursor_lt(*old(cursor), #[trigger] cursor_of(self@[j])))
                    && *final(cursor) == *old(cursor),
            },
    {
        let c = *cursor;
        let mut best: Option<usize> = None;
        let mut i: usize = 0;
        while i < self.txs.len()
            invariant
                0 <= i <= self.txs@.len(),
                self.wf(),
                match best {
                    Some(b) => b < i && cursor_lt(c, cursor_of(self@[b as int])) && forall|j: int|
                        0 <= j < i && cursor_lt(c, #[trigger] cursor_of(self@[j])) ==> !cursor_lt(
                            cursor_of(self@[j]),
                            cursor_of(self@[b as int]),
                        ),
                    None => forall|j: int| 0 <= j < i ==> !cursor_lt(c, #[trigger] cursor_of(self@[j])),
                },
            decreases self.txs@.len() - i,
        {
            let ci = MempoolCursor::from_db_tx(&self.txs[i]);
            assert(ci == cursor_of(self@[i as int]));
            if c.precedes(&ci) {
                match best {
                    None => {
                        best = Some(i);
                    },
                    Some(b) => {
                        let cb = MempoolCursor::from_db_tx(&self.txs[b]);
                        if ci.precedes(&cb) {
                            proof {
                                assert forall|j: int|
                                    0 <= j < i + 1 && cursor_lt(c, #[trigger] cursor_of(self@[j])) implies !cursor_lt(
                                    cursor_of(self@[j]),
                                    ci,
                                ) by {
                                    if j < i && cursor_lt(cursor_of(self@[j]), ci) {
                                        lemma_cursor_lt_transitive(cursor_of(self@[j]), ci, cb);
                                    }
                                }
                            }
                            best = Some(i);
                        }
                    },
                }
            }
            i = i + 1;
        }
        match best {
            None => None,
            Some(b) => {
                let t = self.txs[b].duplicate();
                *cursor = MempoolCursor::from_db_tx(&self.txs[b]);
                assert(is_next_after(self@, c, b as int));
                assert(t@ == self@[b as int]);
                Some(t)
            },
        }
    }
}

} // verus!
