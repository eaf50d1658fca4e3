//! The cache of state roots the sequencer computed, by rollup height, with
//! the write sets that produced them while memory allows.
use vstd::prelude::*;

verus! {

/// The memory the cached write sets may take altogether, in bytes.
pub const MEMORY_LIMIT_FOR_STATE_ROOT_COMPUTATION: usize = 100_000_000;

/// The most state roots the cache holds.
pub const MAX_STATE_ROOTS_TO_CACHE: usize = 100;

/// A cached state root, with the write set that produced it if it was kept,
/// and the memory that write set takes (0 when it was not kept).
#[derive(Debug)]
pub struct StateRootCacheEntry<R, W> {
    pub root: R,
    pub writes: Option<W>,
    pub size: usize,
}

/// The size of a write set: the bytes of its keys and of the values written.
pub open spec fn write_set_size(writes: Seq<(Seq<u8>, Option<Seq<u8>>)>) -> nat
    decreases writes.len(),
{
    if writes.len() == 0 {
        0
    } else {
        write_set_size(writes.drop_last()) + writes.last().0.len() + match writes.last().1 {
            Some(v) => v.len(),
            None => 0,
        }
    }
}

/// The view of a write set.
pub open spec fn writes_view(writes: Seq<(Vec<u8>, Option<Vec<u8>>)>) -> Seq<(Seq<u8>, Option<Seq<u8>>)> {
    writes.map_values(
        |w: (Vec<u8>, Option<Vec<u8>>)|
            (
                w.0@,
                match w.1 {
                    Some(v) => Some(v@),
                    None => None,
                },
            ),
    )
}

/// Measures a write set.
pub fn measure_write_set(writes: &Vec<(Vec<u8>, Option<Vec<u8>>)>) -> (r: usize)
    requires
        write_set_size(writes_view(writes@)) <= usize::MAX,
    ensures
        r == write_set_size(writes_view(writes@)),
{
    let ghost all = writes_view(writes@);
    let mut size: usize = 0;
    let mut i: usize = 0;
    while i < writes.len()
        invariant
            0 <= i <= writes@.len(),
            all == writes_view(writes@),
            all.len() == writes@.len(),
            write_set_size(all) <= usize::MAX,
            size == write_set_size(all.take(i as int)),
        decreases writes@.len() - i,
    {
        assert(all.take(i + 1).drop_last() =~= all.take(i as int));
        assert(all.take(i + 1).last() == all[i as int]);
        proof {
            lemma_write_set_size_prefix(all, i + 1);
        }
        let (key, value) = &writes[i];
        let v = match value {
            Some(v) => v.len(),
            None => 0,
        };
        size = size + key.len() + v;
        i = i + 1;
    }
    assert(all.take(writes@.len() as int) =~= all);
    size
}

/// A prefix of a write set is no larger than the whole.
proof fn lemma_write_set_size_prefix(w: Seq<(Seq<u8>, Option<Seq<u8>>)>, k: int)
    requires
        0 <= k <= w.len(),
    ensures
        write_set_size(w.take(k)) <= write_set_size(w),
    decreases w.len(),
{
    if k < w.len() {
        assert(w.drop_last().take(k) =~= w.take(k));
        lemma_write_set_size_prefix(w.drop_last(), k);
    } else {
        assert(w.take(k) =~= w);
    }
}

/// Whether a write set of `size` bytes is kept: only when state roots are
/// checked, and only when it takes at most a fifth of the memory limit, so
/// that a few large write sets cannot hog the cache.
pub fn keep_write_set(check_state_roots: bool, size: usize) -> (r: bool)
    ensures
        r == (check_state_roots && size <= MEMORY_LIMIT_FOR_STATE_ROOT_COMPUTATION / 5),
{
    check_state_roots && size <= MEMORY_LIMIT_FOR_STATE_ROOT_COMPUTATION / 5
}

/// The sum of the sizes of the entries.
pub open spec fn sizes_sum<R, W>(es: Seq<(u64, StateRootCacheEntry<R, W>)>) -> nat
    decreases es.len(),
{
    if es.len() == 0 {
        0
    } else {
        sizes_sum(es.drop_last()) + (es.last().1.size as nat)
    }
}

/// The number of leading entries whose write sets are dropped to bring
/// `total` within the memory limit, oldest first.
pub open spec fn write_sets_to_drop<R, W>(es: Seq<(u64, StateRootCacheEntry<R, W>)>, total: int) -> nat
    decreases es.len(),
{
    if total <= MEMORY_LIMIT_FOR_STATE_ROOT_COMPUTATION || es.len() == 0 {
        0
    } else {
        1 + write_sets_to_drop(es.drop_first(), total - es[0].1.size)
    }
}

/// The entry without its write set.
pub open spec fn without_write_set<R, W>(e: (u64, StateRootCacheEntry<R, W>)) -> (
    u64,
    StateRootCacheEntry<R, W>,
) {
    (e.0, StateRootCacheEntry { root: e.1.root, writes: None, size: 0 })
}

/// The entries once the write sets of the first `k` were dropped.
pub open spec fn drop_write_sets<R, W>(es: Seq<(u64, StateRootCacheEntry<R, W>)>, k: int) -> Seq<
    (u64, StateRootCacheEntry<R, W>),
> {
    Seq::new(es.len(), |i: int| if i < k { without_write_set(es[i]) } else { es[i] })
}

/// The sum of the sizes of the first `k` entries.
pub open spec fn prefix_sizes<R, W>(es: Seq<(u64, StateRootCacheEntry<R, W>)>, k: int) -> nat {
    sizes_sum(es.take(k))
}

/// The entries once the cache, whose recorded memory is `total`, was
/// pruned: the oldest write sets go until the recorded memory is within the
/// limit, then the oldest entry goes if there are too many.
pub open spec fn pruned<R, W>(es: Seq<(u64, StateRootCacheEntry<R, W>)>, total: int) -> Seq<
    (u64, StateRootCacheEntry<R, W>),
> {
    let d = drop_write_sets(es, write_sets_to_drop(es, total) as int);
    if d.len() > MAX_STATE_ROOTS_TO_CACHE {
        d.drop_first()
    } else {
        d
    }
}

/// The number of entries below the rollup height `h`.
pub open spec fn lower_count<R, W>(es: Seq<(u64, StateRootCacheEntry<R, W>)>, h: u64) -> nat
    decreases es.len(),
{
    if es.len() == 0 {
        0
    } else {
        lower_count(es.drop_last(), h) + if es.last().0 < h {
            1nat
        } else {
            0nat
        }
    }
}

/// The sum of sizes grows by the size of an inserted entry.
pub proof fn lemma_sizes_sum_insert<R, W>(
    es: Seq<(u64, StateRootCacheEntry<R, W>)>,
    i: int,
    e: (u64, StateRootCacheEntry<R, W>),
)
    requires
        0 <= i <= es.len(),
    ensures
        sizes_sum(es.insert(i, e)) == sizes_sum(es) + e.1.size,
    decreases es.len(),
{
    if i < es.len() {
        lemma_sizes_sum_insert(es.drop_last(), i, e);
        assert(es.insert(i, e).drop_last() =~= es.drop_last().insert(i, e));
    } else {
        assert(es.insert(i, e).drop_last() =~= es);
    }
}

/// The sum of the sizes of a prefix, one entry longer.
pub proof fn lemma_prefix_sizes_step<R, W>(es: Seq<(u64, StateRootCacheEntry<R, W>)>, k: int)
    requires
        0 <= k < es.len(),
    ensures
        prefix_sizes(es, k + 1) == prefix_sizes(es, k) + es[k].1.size,
{
    assert(es.take(k + 1).drop_last() =~= es.take(k));
}

/// The entries' sizes sum to at most the sum over all.
pub proof fn lemma_prefix_sizes_le<R, W>(es: Seq<(u64, StateRootCacheEntry<R, W>)>, k: int)
    requires
        0 <= k <= es.len(),
    ensures
        prefix_sizes(es, k) <= sizes_sum(es),
    decreases es.len(),
{
    if k < es.len() {
        assert(es.drop_last().take(k) =~= es.take(k));
        lemma_prefix_sizes_le(es.drop_last(), k);
    } else {
        assert(es.take(k) =~= es);
    }
}

/// Dropping write sets from a prefix counts in the same order as the
/// recursive definition.
pub proof fn lemma_write_sets_to_drop_step<R, W>(
    es: Seq<(u64, StateRootCacheEntry<R, W>)>,
    total: int,
    k: int,
)
    requires
        0 <= k <= es.len(),
        forall|j: int|
            0 <= j <= k ==> #[trigger] (total - prefix_sizes(es, j))
                > MEMORY_LIMIT_FOR_STATE_ROOT_COMPUTATION || j == k,
    ensures
        write_sets_to_drop(es, total) == k + write_sets_to_drop(es.skip(k), total - prefix_sizes(es, k)),
    decreases k,
{
    if k == 0 {
        assert(es.take(0) =~= Seq::<(u64, StateRootCacheEntry<R, W>)>::empty());
        assert(es.skip(0) =~= es);
    } else {
        assert(total - prefix_sizes(es, 0) > MEMORY_LIMIT_FOR_STATE_ROOT_COMPUTATION);
        assert(es.take(0) =~= Seq::<(u64, StateRootCacheEntry<R, W>)>::empty());
        let t = es.drop_first();
        assert forall|j: int| 0 <= j <= k - 1 implies #[trigger] (total - es[0].1.size
            - prefix_sizes(t, j)) > MEMORY_LIMIT_FOR_STATE_ROOT_COMPUTATION || j == k - 1 by {
            lemma_prefix_shift(es, j);
            assert(total - prefix_sizes(es, j + 1) > MEMORY_LIMIT_FOR_STATE_ROOT_COMPUTATION || j + 1 == k);
        }
        lemma_write_sets_to_drop_step(t, total - es[0].1.size, k - 1);
        lemma_prefix_shift(es, k - 1);
        assert(t.skip(k - 1) =~= es.skip(k));
    }
}

/// The sizes of a prefix of `es` past its first entry.
pub proof fn lemma_prefix_shift<R, W>(es: Seq<(u64, StateRootCacheEntry<R, W>)>, j: int)
    requires
        0 <= j < es.len(),
    ensures
        prefix_sizes(es, j + 1) == es[0].1.size + prefix_sizes(es.drop_first(), j),
    decreases j,
{
    if j == 0 {
        assert(es.take(1).drop_last() =~= Seq::<(u64, StateRootCacheEntry<R, W>)>::empty());
        assert(es.drop_first().take(0) =~= Seq::<(u64, StateRootCacheEntry<R, W>)>::empty());
    } else {
        lemma_prefix_shift(es, j - 1);
        lemma_prefix_sizes_step(es, j);
        lemma_prefix_sizes_step(es.drop_first(), j - 1);
    }
}

/// The rollup heights are strictly increasing.
pub open spec fn heights_increasing<R, W>(es: Seq<(u64, StateRootCacheEntry<R, W>)>) -> bool {
    forall|i: int, j: int| 0 <= i < j < es.len() ==> es[i].0 < es[j].0
}

/// The state roots computed so far, oldest rollup height first.
pub struct StateRootCache<R, W> {
    entries: Vec<(u64, StateRootCacheEntry<R, W>)>,
    total_size: usize,
}

impl<R, W> StateRootCache<R, W> {
    /// The cached entries, by increasing rollup height.
    pub closed spec fn entries(&self) -> Seq<(u64, StateRootCacheEntry<R, W>)> {
        self.entries@
    }

    /// The memory the kept write sets take.
    pub closed spec fn total_size(&self) -> usize {
        self.total_size
    }

    /// The internal invariant: heights increase, and the recorded memory is
    /// at least the sum of the entries' sizes (an entry evicted for being
    /// too old leaves its size recorded).
    pub closed spec fn wf(&self) -> bool {
        &&& heights_increasing(self.entries@)
        &&& self.total_size >= sizes_sum(self.entries@)
    }

    /// An empty cache.
    pub fn new() -> (r: Self)
        ensures
            r.wf(),
            r.entries().len() == 0,
            r.total_size() == 0,
    {
        StateRootCache { entries: Vec::new(), total_size: 0 }
    }

    /// The number of cached state roots.
    pub fn len(&self) -> (r: usize)
        ensures
            r == self.entries().len(),
    {
        self.entries.len()
    }

    /// The memory the kept write sets take.
    pub fn cached_results_size(&self) -> (r: usize)
        ensures
            r == self.total_size(),
    {
        self.total_size
    }

    /// The entry of the given rollup height, if cached.
    pub fn get(&self, rollup_height: u64) -> (r: Option<&StateRootCacheEntry<R, W>>)
        requires
            self.wf(),
        ensures
            match r {
                Some(e) => exists|i: int|
                    0 <= i < self.entries().len() && #[trigger] self.entries()[i].0 == rollup_height
                        && self.entries()[i].1 == *e,
                None => forall|i: int|
                    0 <= i < self.entries().len() ==> #[trigger] self.entries()[i].0 != rollup_height,
            },
    {
        let mut i: usize = 0;
        while i < self.entries.len()
            invariant
                0 <= i <= self.entries@.len(),
                forall|j: int| 0 <= j < i ==> #[trigger] self.entries@[j].0 != rollup_height,
            decreases self.entries@.len() - i,
        {
            if self.entries[i].0 == rollup_height {
                assert(self.entries()[i as int].0 == rollup_height);
                return Some(&self.entries[i].1);
            }
            i = i + 1;
        }
        None
    }

    /// Caches the state root of a rollup height not cached yet, and records
    /// the memory its write set takes.
    pub fn insert(&mut self, rollup_height: u64, entry: StateRootCacheEntry<R, W>)
        requires
            old(self).wf(),
            forall|i: int|
                0 <= i < old(self).entries().len() ==> #[trigger] old(self).entries()[i].0
                    != rollup_height,
            old(self).total_size() + entry.size <= usize::MAX,
        ensures
            final(self).wf(),
            final(self).entries() == old(self).entries().insert(
                lower_count(old(self).entries(), rollup_height) as int,
                (rollup_height, entry),
            ),
            final(self).total_size() == old(self).total_size() + entry.size,
    {
        let ghost es = self.entries@;
        let mut pos: usize = 0;
        while pos < self.entries.len() && self.entries[pos].0 < rollup_height
            invariant
                0 <= pos <= self.entries@.len(),
                es == self.entries@,
                heights_increasing(es),
                forall|j: int| 0 <= j < pos ==> #[trigger] es[j].0 < rollup_height,
                lower_count(es.take(pos as int), rollup_height) == pos,
            decreases self.entries@.len() - pos,
        {
            assert(es.take(pos + 1).drop_last() =~= es.take(pos as int));
            pos = pos + 1;
        }
        proof {
            lemma_lower_count_rest(es, pos as int, rollup_height);
        }
        let size = entry.size;
        self.entries.insert(pos, (rollup_height, entry));
        proof {
            lemma_sizes_sum_insert(es, pos as int, (rollup_height, entry));
            let ns = self.entries@;
            assert forall|i: int, j: int| 0 <= i < j < ns.len() implies ns[i].0 < ns[j].0 by {
                if j < pos {
                } else if j == pos {
                    assert(ns[i] == es[i]);
                } else if i < pos {
                    assert(ns[j] == es[j - 1]);
                    assert(ns[i] == es[i]);
                    assert(old(self).entries()[j - 1].0 != rollup_height);
                } else if i == pos {
                    assert(ns[j] == es[j - 1]);
                    assert(old(self).entries()[j - 1].0 != rollup_height);
                } else {
                    assert(ns[j] == es[j - 1] && ns[i] == es[i - 1]);
                }
            }
        }
        self.total_size = self.total_size + size;
    }

    /// Prunes the cache: the oldest write sets are dropped until the
    /// recorded memory is within the limit, then the oldest entry goes if
    /// there are too many.
    pub fn prune_cache(&mut self)
        requires
            old(self).wf(),
            old(self).total_size() <= MEMORY_LIMIT_FOR_STATE_ROOT_COMPUTATION + sizes_sum(
                old(self).entries(),
            ),
        ensures
            final(self).wf(),
            final(self).entries() == pruned(old(self).entries(), old(self).total_size() as int),
            final(self).total_size() == old(self).total_size() - prefix_sizes(
                old(self).entries(),
                write_sets_to_drop(old(self).entries(), old(self).total_size() as int) as int,
            ),
            final(self).total_size() <= MEMORY_LIMIT_FOR_STATE_ROOT_COMPUTATION,
            final(self).entries().len() == if old(self).entries().len() > MAX_STATE_ROOTS_TO_CACHE {
                old(self).entries().len() - 1
            } else {
                old(self).entries().len() as int
            },
    {
        let ghost es = self.entries@;
        let ghost total0 = self.total_size as int;
        let n = self.entries.len();
        let mut i: usize = 0;
        while self.total_size > MEMORY_LIMIT_FOR_STATE_ROOT_COMPUTATION
            invariant
                0 <= i <= es.len(),
                n == es.len(),
                total0 >= sizes_sum(es),
                self.entries@.len() == es.len(),
                self.entries@ == drop_write_sets(es, i as int),
                self.total_size == total0 - prefix_sizes(es, i as int),
                total0 <= MEMORY_LIMIT_FOR_STATE_ROOT_COMPUTATION + sizes_sum(es),
                heights_increasing(es),
                forall|j: int|
                    0 <= j <= i ==> #[trigger] (total0 - prefix_sizes(es, j))
                        > MEMORY_LIMIT_FOR_STATE_ROOT_COMPUTATION || j == i,
            decreases es.len() - i,
        {
            proof {
                if i >= es.len() {
                    assert(es.take(i as int) =~= es);
                    assert(false);
                }
                lemma_prefix_sizes_step(es, i as int);
                lemma_prefix_sizes_le(es, i + 1);
            }
            let ghost before = self.entries@;
            let size = self.entries[i].1.size;
            let (h, e) = self.entries.remove(i);
            let StateRootCacheEntry { root, writes: _, size: _ } = e;
            self.entries.insert(i, (h, StateRootCacheEntry { root, writes: None, size: 0 }));
            assert(self.entries@ =~= drop_write_sets(es, i + 1));
            self.total_size = self.total_size - size;
            i = i + 1;
        }
        proof {
            lemma_write_sets_to_drop_step(es, total0, i as int);
            assert(total0 - prefix_sizes(es, i as int) <= MEMORY_LIMIT_FOR_STATE_ROOT_COMPUTATION);
            if es.skip(i as int).len() > 0 {
            }
            assert(write_sets_to_drop(es.skip(i as int), total0 - prefix_sizes(es, i as int)) == 0);
            lemma_drop_write_sets_sum(es, i as int);
        }
        if self.entries.len() > MAX_STATE_ROOTS_TO_CACHE {
            let ghost d = self.entries@;
            self.entries.remove(0);
            proof {
                assert(self.entries@ =~= d.drop_first());
                lemma_sizes_sum_drop_first(d);
                assert forall|a: int, b: int| 0 <= a < b < self.entries@.len() implies self.entries@[a].0
                    < self.entries@[b].0 by {
                    assert(self.entries@[a] == d[a + 1] && self.entries@[b] == d[b + 1]);
                    assert(d[a + 1].0 == es[a + 1].0 && d[b + 1].0 == es[b + 1].0);
                }
            }
        } else {
            proof {
                assert forall|a: int, b: int| 0 <= a < b < self.entries@.len() implies self.entries@[a].0
                    < self.entries@[b].0 by {
                    assert(self.entries@[a].0 == es[a].0 && self.entries@[b].0 == es[b].0);
                }
            }
        }
    }
}

/// Dropping the write sets of the first `k` entries takes their sizes off
/// the sum.
pub proof fn lemma_drop_write_sets_sum<R, W>(es: Seq<(u64, StateRootCacheEntry<R, W>)>, k: int)
    requires
        0 <= k <= es.len(),
    ensures
        sizes_sum(drop_write_sets(es, k)) + prefix_sizes(es, k) == sizes_sum(es),
    decreases es.len(),
{
    if es.len() > 0 {
        if k == es.len() {
            lemma_drop_write_sets_sum(es.drop_last(), k - 1);
            assert(drop_write_sets(es, k).drop_last() =~= drop_write_sets(es.drop_last(), k - 1));
            lemma_prefix_sizes_step(es, k - 1);
            assert(es.drop_last().take(k - 1) =~= es.take(k - 1));
        } else {
            lemma_drop_write_sets_sum(es.drop_last(), k);
            assert(drop_write_sets(es, k).drop_last() =~= drop_write_sets(es.drop_last(), k));
            assert(es.drop_last().take(k) =~= es.take(k));
        }
    } else {
        assert(es.take(k) =~= es);
    }
}

/// The sum of sizes without the first entry.
pub proof fn lemma_sizes_sum_drop_first<R, W>(es: Seq<(u64, StateRootCacheEntry<R, W>)>)
    requires
        es.len() > 0,
    ensures
        sizes_sum(es.drop_first()) + es[0].1.size == sizes_sum(es),
    decreases es.len(),
{
    if es.len() > 1 {
        lemma_sizes_sum_drop_first(es.drop_last());
        assert(es.drop_first().drop_last() =~= es.drop_last().drop_first());
        assert(es.drop_first().last() == es.last());
        assert(es.drop_last()[0] == es[0]);
        assert(sizes_sum(es.drop_first()) == sizes_sum(es.drop_first().drop_last())
            + es.drop_first().last().1.size);
        assert(sizes_sum(es) == sizes_sum(es.drop_last()) + es.last().1.size);
    } else {
        assert(es.drop_first() =~= Seq::<(u64, StateRootCacheEntry<R, W>)>::empty());
        assert(es.drop_last() =~= Seq::<(u64, StateRootCacheEntry<R, W>)>::empty());
        assert(sizes_sum(es) == sizes_sum(es.drop_last()) + es.last().1.size);
    }
}

/// The entries below `h` in a list of increasing heights whose first `pos`
/// are below `h` and whose next, if any, is not.
proof fn lemma_lower_count_rest<R, W>(es: Seq<(u64, StateRootCacheEntry<R, W>)>, pos: int, h: u64)
    requires
        0 <= pos <= es.len(),
        heights_increasing(es),
        lower_count(es.take(pos), h) == pos,
        pos < es.len() ==> es[pos].0 >= h,
    ensures
        lower_count(es, h) == pos,
    decreases es.len() - pos,
{
    if pos < es.len() {
        lemma_lower_count_suffix(es, pos, h);
    } else {
        assert(es.take(pos) =~= es);
    }
}

/// Entries at or past a position whose height is at least `h` add nothing
/// to the count below `h`.
proof fn lemma_lower_count_suffix<R, W>(es: Seq<(u64, StateRootCacheEntry<R, W>)>, pos: int, h: u64)
    requires
        0 <= pos < es.len(),
        heights_increasing(es),
        es[pos].0 >= h,
    ensures
        lower_count(es, h) == lower_count(es.take(pos), h),
    decreases es.len(),
{
    if es.len() - 1 > pos {
        lemma_lower_count_suffix(es.drop_last(), pos, h);
        assert(es.drop_last().take(pos) =~= es.take(pos));
        assert(es[pos].0 < es[es.len() - 1].0);
    } else {
        assert(es.drop_last() =~= es.take(pos));
    }
}

} // verus!