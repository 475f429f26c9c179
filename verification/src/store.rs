//! The coherent lineage store: an arena owning all active lineages.
//!
//! A lineage reference is an index into the arena; ownership of the data
//! stays with the store. A slot that empties (its lineage coalesced,
//! speciated or emigrated) is never reused, so no reference is ever
//! reissued; freshly immigrated lineages get new slots at the end.

use vstd::prelude::*;
use crate::habitat::Habitat;
use crate::landscape::Location;
use crate::lineage::Lineage;

verus! {

/// An active lineage together with the time its next event is scheduled to
/// fire. The schedule is drawn once, when the lineage (re-)enters the
/// active set.
#[derive(Clone, Copy, PartialEq, Eq, Structural, Debug)]
pub struct ScheduledLineage {
    pub lineage: Lineage,
    /// Strictly greater than `lineage.last_event_time`; `TIME_INFINITY`
    /// for a schedule beyond representable time, which never fires.
    pub next_event_time: u64,
}

/// The number of occupied slots of `s`.
pub open spec fn count_active(s: Seq<Option<ScheduledLineage>>) -> int
    decreases s.len(),
{
    if s.len() == 0 {
        0
    } else {
        count_active(s.drop_last()) + if s.last() is Some {
            1int
        } else {
            0int
        }
    }
}

/// The slot indices of the lineages occupying `location`, in ascending
/// order.
pub open spec fn occupant_refs(s: Seq<Option<ScheduledLineage>>, location: Location) -> Seq<int>
    decreases s.len(),
{
    if s.len() == 0 {
        Seq::empty()
    } else {
        occupant_refs(s.drop_last(), location) + if s.last() matches Some(x)
            && x.lineage.indexed_location.location == location {
            seq![s.len() - 1]
        } else {
            Seq::empty()
        }
    }
}

pub broadcast proof fn lemma_count_active_bound(s: Seq<Option<ScheduledLineage>>)
    ensures
        0 <= #[trigger] count_active(s) <= s.len(),
    decreases s.len(),
{
    if s.len() > 0 {
        lemma_count_active_bound(s.drop_last());
    }
}

/// Updating an occupied slot to empty lowers the active count by one.
pub proof fn lemma_count_active_clear(s: Seq<Option<ScheduledLineage>>, r: int)
    requires
        0 <= r < s.len(),
        s[r] is Some,
    ensures
        count_active(s.update(r, None)) == count_active(s) - 1,
    decreases s.len(),
{
    let t = s.update(r, None);
    if r == s.len() - 1 {
        assert(t.drop_last() =~= s.drop_last());
    } else {
        assert(t.drop_last() =~= s.drop_last().update(r, None));
        assert(t.last() == s.last());
        lemma_count_active_clear(s.drop_last(), r);
    }
}

/// Filling an empty slot raises the active count by one.
pub proof fn lemma_count_active_fill(s: Seq<Option<ScheduledLineage>>, r: int, x: ScheduledLineage)
    requires
        0 <= r < s.len(),
        s[r] is None,
    ensures
        count_active(s.update(r, Some(x))) == count_active(s) + 1,
    decreases s.len(),
{
    let t = s.update(r, Some(x));
    if r == s.len() - 1 {
        assert(t.drop_last() =~= s.drop_last());
    } else {
        assert(t.drop_last() =~= s.drop_last().update(r, Some(x)));
        assert(t.last() == s.last());
        lemma_count_active_fill(s.drop_last(), r, x);
    }
}

/// Appending an occupied slot raises the active count by one.
pub proof fn lemma_count_active_push(s: Seq<Option<ScheduledLineage>>, x: ScheduledLineage)
    ensures
        count_active(s.push(Some(x))) == count_active(s) + 1,
{
    assert(s.push(Some(x)).drop_last() =~= s);
}

/// Every occupant reference indexes an occupied slot at `location`.
pub proof fn lemma_occupant_refs_valid(s: Seq<Option<ScheduledLineage>>, location: Location)
    ensures
        forall|k: int|
            0 <= k < occupant_refs(s, location).len() ==> {
                &&& 0 <= #[trigger] occupant_refs(s, location)[k] < s.len()
                &&& s[occupant_refs(s, location)[k]] is Some
                &&& s[occupant_refs(s, location)[k]]->0.lineage.indexed_location.location
                    == location
            },
    decreases s.len(),
{
    if s.len() > 0 {
        lemma_occupant_refs_valid(s.drop_last(), location);
    }
}

/// The coherent lineage store: answers which lineages currently occupy a
/// location, and supports insertion and removal by reference.
#[derive(Clone, PartialEq, Eq, Debug)]
pub struct CoherentLineageStore {
    slots: Vec<Option<ScheduledLineage>>,
}

impl CoherentLineageStore {
    pub closed spec fn slots_seq(self) -> Seq<Option<ScheduledLineage>> {
        self.slots@
    }

    /// Every active lineage sits on habitable ground, has not exhausted
    /// representable time, and fires strictly after its last event.
    pub open spec fn wf(self, habitat: Habitat) -> bool {
        forall|r: int|
            0 <= r < self.slots_seq().len() ==> (#[trigger] self.slots_seq()[r] matches Some(x)
                ==> {
                &&& habitat.is_habitable(x.lineage.indexed_location.location)
                &&& x.lineage.last_event_time < x.next_event_time
            })
    }

    /// An empty store.
    pub fn new() -> (r: CoherentLineageStore)
        ensures
            r.slots_seq() == Seq::<Option<ScheduledLineage>>::empty(),
    {
        CoherentLineageStore { slots: Vec::new() }
    }

    pub fn num_slots(&self) -> (r: usize)
        ensures
            r == self.slots_seq().len(),
    {
        self.slots.len()
    }

    /// The number of currently active lineages.
    pub fn number_active_lineages(&self) -> (r: usize)
        ensures
            r == count_active(self.slots_seq()),
    {
        proof {
            broadcast use lemma_count_active_bound;
        }
        let mut count: usize = 0;
        let mut i: usize = 0;
        while i < self.slots.len()
            invariant
                i <= self.slots@.len(),
                count == count_active(self.slots@.take(i as int)),
                count <= i,
            decreases self.slots@.len() - i,
        {
            proof {
                assert(self.slots@.take(i + 1).drop_last() =~= self.slots@.take(i as int));
                assert(self.slots@.take(i + 1).last() == self.slots@[i as int]);
            }
            if self.slots[i].is_some() {
                count = count + 1;
            }
            i = i + 1;
        }
        proof {
            assert(self.slots@.take(self.slots@.len() as int) =~= self.slots@);
        }
        count
    }

    /// The scheduled lineage held by slot `r`, if any.
    pub fn get_scheduled(&self, r: usize) -> (x: Option<ScheduledLineage>)
        requires
            r < self.slots_seq().len(),
        ensures
            x == self.slots_seq()[r as int],
    {
        self.slots[r]
    }

    /// Remove and return the lineage of slot `r`; the slot stays empty
    /// forever unless the same lineage is written straight back.
    pub fn extract(&mut self, r: usize) -> (x: ScheduledLineage)
        requires
            r < old(self).slots_seq().len(),
            old(self).slots_seq()[r as int] is Some,
        ensures
            Some(x) == old(self).slots_seq()[r as int],
            final(self).slots_seq() == old(self).slots_seq().update(r as int, None),
    {
        let x = self.slots[r].unwrap();
        self.slots[r] = None;
        x
    }

    /// Write a lineage back into its own, currently empty slot.
    pub fn restore(&mut self, r: usize, x: ScheduledLineage)
        requires
            r < old(self).slots_seq().len(),
            old(self).slots_seq()[r as int] is None,
        ensures
            final(self).slots_seq() == old(self).slots_seq().update(r as int, Some(x)),
    {
        self.slots[r] = Some(x);
    }

    /// Insert a freshly arrived lineage under a new reference.
    pub fn append(&mut self, x: ScheduledLineage) -> (r: usize)
        ensures
            r == old(self).slots_seq().len(),
            final(self).slots_seq() == old(self).slots_seq().push(Some(x)),
    {
        let r = self.slots.len();
        self.slots.push(Some(x));
        r
    }

    /// Borrow the backing slot array, for snapshotting.
    pub fn raw_slots(&self) -> (r: &Vec<Option<ScheduledLineage>>)
        ensures
            r@ == self.slots_seq(),
    {
        &self.slots
    }

    /// Replace the backing slot array wholesale, for restoring a snapshot.
    pub fn replace_slots(&mut self, slots: Vec<Option<ScheduledLineage>>)
        ensures
            final(self).slots_seq() == slots@,
    {
        self.slots = slots;
    }

    /// The references of all lineages currently occupying `location`, in
    /// ascending slot order.
    pub fn occupants_at(&self, location: &Location) -> (v: Vec<usize>)
        ensures
            v@.map_values(|r: usize| r as int) == occupant_refs(self.slots_seq(), *location),
            v@.len() == occupant_refs(self.slots_seq(), *location).len(),
    {
        let mut v: Vec<usize> = Vec::new();
        let mut i: usize = 0;
        while i < self.slots.len()
            invariant
                i <= self.slots@.len(),
                v@.map_values(|r: usize| r as int) == occupant_refs(
                    self.slots@.take(i as int),
                    *location,
                ),
                forall|k: int| 0 <= k < v@.len() ==> #[trigger] v@[k] < i,
            decreases self.slots@.len() - i,
        {
            proof {
                assert(self.slots@.take(i + 1).drop_last() =~= self.slots@.take(i as int));
                assert(self.slots@.take(i + 1).last() == self.slots@[i as int]);
            }
            let here = match &self.slots[i] {
                Some(x) => x.lineage.indexed_location.location.x == location.x
                    && x.lineage.indexed_location.location.y == location.y,
                None => false,
            };
            if here {
                v.push(i);
                proof {
                    assert(v@.map_values(|r: usize| r as int) =~= occupant_refs(
                        self.slots@.take(i + 1),
                        *location,
                    ));
                }
            }
            i = i + 1;
        }
        proof {
            assert(self.slots@.take(self.slots@.len() as int) =~= self.slots@);
        }
        v
    }
}

} // verus!
