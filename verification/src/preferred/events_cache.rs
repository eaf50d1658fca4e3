//! The cache of recent events, by event number, each with the slot it
//! happened in; events of finalized slots are dropped.
use vstd::prelude::*;

verus! {

/// Recent events, by increasing event number.
pub struct EventCache<E> {
    entries: Vec<(u64, E, u64)>,
}

/// The event numbers strictly increase.
pub open spec fn event_numbers_increasing<E>(es: Seq<(u64, E, u64)>) -> bool {
    forall|i: int, j: int| 0 <= i < j < es.len() ==> es[i].0 < es[j].0
}

/// Whether an entry's slot comes after `finalized_slot`.
pub open spec fn after_slot<E>(finalized_slot: u64) -> spec_fn((u64, E, u64)) -> bool {
    |e: (u64, E, u64)| e.2 > finalized_slot
}

/// The entries of slots after `finalized_slot`, in order.
pub open spec fn entries_after_slot<E>(es: Seq<(u64, E, u64)>, finalized_slot: u64) -> Seq<(u64, E, u64)> {
    es.filter(after_slot(finalized_slot))
}

impl<E> EventCache<E> {
    /// The cached entries: event number, event, slot number.
    pub closed spec fn entries(&self) -> Seq<(u64, E, u64)> {
        self.entries@
    }

    /// The cache's invariant.
    pub closed spec fn wf(&self) -> bool {
        event_numbers_increasing(self.entries@)
    }

    /// An empty cache.
    pub fn new() -> (r: Self)
        ensures
            r.wf(),
            r.entries().len() == 0,
    {
        EventCache { entries: Vec::new() }
    }

    /// The number of cached events.
    pub fn len(&self) -> (r: usize)
        ensures
            r == self.entries().len(),
    {
        self.entries.len()
    }

    /// Caches an event after all those cached, under a greater number.
    pub fn push(&mut self, event_number: u64, event: E, slot_number: u64)
        requires
            old(self).wf(),
            old(self).entries().len() > 0 ==> old(self).entries().last().0 < event_number,
        ensures
            final(self).wf(),
            final(self).entries() == old(self).entries().push((event_number, event, slot_number)),
    {
        self.entries.push((event_number, event, slot_number));
        proof {
            let es = self.entries@;
            assert forall|i: int, j: int| 0 <= i < j < es.len() implies es[i].0 < es[j].0 by {
                if j == es.len() - 1 && i < j {
                    assert(old(self).entries()[i].0 <= old(self).entries().last().0);
                    if i < old(self).entries().len() - 1 {
                        assert(old(self).entries()[i].0 < old(self).entries()[old(self).entries().len() - 1].0);
                    }
                }
            }
        }
    }

    /// The event with the given number and its slot, if cached.
    pub fn get(&self, event_number: u64) -> (r: Option<&(u64, E, u64)>)
        ensures
            match r {
                Some(e) => exists|i: int|
                    0 <= i < self.entries().len() && self.entries()[i] == *e && #[trigger] self.entries()[i].0
                        == event_number,
                None => forall|i: int|
                    0 <= i < self.entries().len() ==> #[trigger] self.entries()[i].0 != event_number,
            },
    {
        let mut i: usize = 0;
        while i < self.entries.len()
            invariant
                0 <= i <= self.entries@.len(),
                forall|j: int| 0 <= j < i ==> #[trigger] self.entries@[j].0 != event_number,
            decreases self.entries@.len() - i,
        {
            if self.entries[i].0 == event_number {
                assert(self.entries()[i as int].0 == event_number);
                return Some(&self.entries[i]);
            }
            i = i + 1;
        }
        None
    }
}

/// Drops the events of slots up to `finalized_slot`, keeping the others in
/// order.
pub fn prune_events_cache<E>(finalized_slot: u64, cache: &mut EventCache<E>)
    requires
        old(cache).wf(),
    ensures
        final(cache).wf(),
        final(cache).entries() == entries_after_slot(old(cache).entries(), finalized_slot),
{
    let ghost es = cache.entries@;
    let mut old_entries: Vec<(u64, E, u64)> = Vec::new();
    std::mem::swap(&mut old_entries, &mut cache.entries);
    let mut kept: Vec<(u64, E, u64)> = Vec::new();
    let mut rest = old_entries;
    let n = rest.len();
    let mut i: usize = 0;
    proof {
        reveal(Seq::filter);
    }
    assert(entries_after_slot(es.take(0), finalized_slot) =~= Seq::<(u64, E, u64)>::empty());
    while i < n
        invariant
            0 <= i <= n,
            n == es.len(),
            rest@ == es.skip(i as int),
            kept@ == entries_after_slot(es.take(i as int), finalized_slot),
        decreases n - i,
    {
        assert(es.take(i + 1).drop_last() =~= es.take(i as int));
        assert(es.take(i + 1).last() == es[i as int]);
        proof {
            reveal(Seq::filter);
        }
        assert(entries_after_slot(es.take(i + 1), finalized_slot) == if es[i as int].2 > finalized_slot {
            entries_after_slot(es.take(i as int), finalized_slot).push(es[i as int])
        } else {
            entries_after_slot(es.take(i as int), finalized_slot)
        });
        let ghost r0 = rest@;
        let e = rest.remove(0);
        assert(e == es[i as int]);
        assert(rest@ =~= es.skip(i + 1));
        if e.2 > finalized_slot {
            kept.push(e);
        }
        i = i + 1;
    }
    assert(es.take(n as int) =~= es);
    proof {
        lemma_filter_keeps_order(es, finalized_slot);
    }
    cache.entries = kept;
}

/// Keeping some entries of increasing numbers keeps them increasing.
proof fn lemma_filter_keeps_order<E>(es: Seq<(u64, E, u64)>, finalized_slot: u64)
    requires
        event_numbers_increasing(es),
    ensures
        event_numbers_increasing(entries_after_slot(es, finalized_slot)),
        forall|k: int|
            0 <= k < entries_after_slot(es, finalized_slot).len() ==> es.contains(
                #[trigger] entries_after_slot(es, finalized_slot)[k],
            ),
    decreases es.len(),
{
    reveal(Seq::filter);
    let f = entries_after_slot(es, finalized_slot);
    if es.len() > 0 {
        let p = es.drop_last();
        assert(event_numbers_increasing(p)) by {
            assert forall|i: int, j: int| 0 <= i < j < p.len() implies p[i].0 < p[j].0 by {
                assert(p[i] == es[i] && p[j] == es[j]);
            }
        }
        lemma_filter_keeps_order(p, finalized_slot);
        let fp = entries_after_slot(p, finalized_slot);
        assert(f == if es.last().2 > finalized_slot {
            fp.push(es.last())
        } else {
            fp
        });
        assert forall|k: int| 0 <= k < f.len() implies es.contains(#[trigger] f[k]) by {
            if k < fp.len() {
                assert(f[k] == fp[k]);
                let j = choose|j: int| 0 <= j < p.len() && p[j] == fp[k];
                assert(es[j] == p[j]);
            } else {
                assert(f[k] == es.last());
                assert(es[es.len() - 1] == es.last());
            }
        }
        assert forall|i: int, j: int| 0 <= i < j < f.len() implies f[i].0 < f[j].0 by {
            if j < fp.len() {
                assert(f[i] == fp[i] && f[j] == fp[j]);
            } else {
                assert(f[i] == fp[i]);
                assert(p.contains(fp[i]));
                let a = choose|a: int| 0 <= a < p.len() && p[a] == fp[i];
                assert(es[a] == p[a]);
                assert(f[j] == es.last());
                assert(es[es.len() - 1] == es.last());
            }
        }
    } else {
        assert(f =~= Seq::<(u64, E, u64)>::empty());
    }
}

} // verus!
