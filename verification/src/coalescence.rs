//! Coalescence samplers: does an arriving lineage merge with an occupant?

use vstd::prelude::*;
use crate::bond::ClosedUnitFraction;
use crate::habitat::Habitat;
use crate::landscape::{IndexedLocation, Location};
use crate::rng::{index_of_draw, rng_next_state, rng_output, SimRng};
use crate::store::{lemma_occupant_refs_valid, occupant_refs, CoherentLineageStore};

verus! {

/// Given a target location and the store's occupancy, decide whether an
/// arriving lineage coalesces with an existing one, and pick the arrival
/// slot.
pub trait CoalescenceSampler<S> {
    /// Draw a slot at `location` and report the occupying lineage's
    /// reference, if the slot is taken.
    fn sample_optional_coalescence_at_location(
        &self,
        location: Location,
        habitat: &Habitat,
        lineage_store: &S,
        rng: &mut SimRng,
    ) -> (r: (IndexedLocation, Option<usize>))
        requires
            habitat.wf(),
            habitat.is_habitable(location),
        ensures
            r.0.location == location,
            (r.0.index as int) < habitat.capacity_at(location) as int,
            final(rng).seed() == old(rng).seed(),
    ;
}

/// The slot index drawn at a location of capacity `capacity`.
pub open spec fn drawn_slot(rng_state: u64, capacity: u32) -> u64 {
    index_of_draw(rng_output(rng_state), capacity as u64)
}

/// Whether the draw at `rng_state` finds a coalescence partner among the
/// `population` lineages occupying the location: the drawn slot is already
/// taken exactly if it lies below the population count.
pub open spec fn finds_coalescence(rng_state: u64, capacity: u32, population: int) -> bool {
    (drawn_slot(rng_state, capacity) as int) < population
}

/// The coalescence sampler of the coherent store: reports a coalescence
/// exactly when the drawn slot is occupied.
#[derive(Clone, Copy, PartialEq, Eq, Structural, Debug)]
pub struct ConditionalCoalescenceSampler;

impl ConditionalCoalescenceSampler {
    pub fn new() -> (r: ConditionalCoalescenceSampler)
        ensures
            r == ConditionalCoalescenceSampler,
    {
        ConditionalCoalescenceSampler
    }

    /// Choose the coalescence partner among the occupants of `location`.
    pub fn sample_coalescence_at_location(
        location: Location,
        lineage_store: &CoherentLineageStore,
        rng: &mut SimRng,
    ) -> (r: usize)
        requires
            occupant_refs(lineage_store.slots_seq(), location).len() >= 1,
        ensures
            ({
                let occ = occupant_refs(lineage_store.slots_seq(), location);
                r as int == occ[index_of_draw(
                    rng_output(old(rng).state()),
                    occ.len() as u64,
                ) as int]
            }),
            lineage_store.slots_seq()[r as int] is Some,
            final(rng).state() == rng_next_state(old(rng).state()),
            final(rng).seed() == old(rng).seed(),
    {
        proof {
            lemma_occupant_refs_valid(lineage_store.slots_seq(), location);
        }
        let occupants = lineage_store.occupants_at(&location);
        let chosen = rng.sample_index(occupants.len() as u64);
        occupants[chosen as usize]
    }

    /// The probability that an arriving lineage coalesces at `location`:
    /// occupants over capacity, capped at one. When the store still holds
    /// the arriving lineage itself, it is not its own partner and the
    /// population is decremented.
    pub fn get_coalescence_probability_at_location(
        location: Location,
        habitat: &Habitat,
        lineage_store: &CoherentLineageStore,
        lineage_store_includes_self: bool,
    ) -> (r: ClosedUnitFraction)
        requires
            habitat.wf(),
            habitat.is_habitable(location),
            lineage_store_includes_self ==> occupant_refs(
                lineage_store.slots_seq(),
                location,
            ).len() >= 1,
        ensures
            r.wf(),
            r.denom() == habitat.capacity_at(location),
            ({
                let population = occupant_refs(lineage_store.slots_seq(), location).len() - (
                if lineage_store_includes_self {
                    1int
                } else {
                    0int
                });
                r.numer() == if population <= habitat.capacity_at(location) as int {
                    population
                } else {
                    habitat.capacity_at(location) as int
                }
            }),
    {
        let capacity = habitat.get_habitat_at_location(&location);
        let occupants = lineage_store.occupants_at(&location);
        let population = if lineage_store_includes_self {
            occupants.len() - 1
        } else {
            occupants.len()
        };
        let population = if population as u64 > capacity as u64 {
            capacity as u64
        } else {
            population as u64
        };
        match ClosedUnitFraction::new(population, capacity as u64) {
            Ok(p) => p,
            Err(_) => ClosedUnitFraction::never(),
        }
    }
}

impl CoalescenceSampler<CoherentLineageStore> for ConditionalCoalescenceSampler {
    fn sample_optional_coalescence_at_location(
        &self,
        location: Location,
        habitat: &Habitat,
        lineage_store: &CoherentLineageStore,
        rng: &mut SimRng,
    ) -> (r: (IndexedLocation, Option<usize>))
        ensures
            r.0.location == location,
            r.0.index as int == drawn_slot(old(rng).state(), habitat.capacity_at(location)) as int,
            final(rng).state() == rng_next_state(old(rng).state()),
            r.1 is Some <==> finds_coalescence(
                old(rng).state(),
                habitat.capacity_at(location),
                occupant_refs(lineage_store.slots_seq(), location).len() as int,
            ),
            r.1 matches Some(p) ==> {
                let occ = occupant_refs(lineage_store.slots_seq(), location);
                &&& p as int == occ[drawn_slot(old(rng).state(), habitat.capacity_at(location)) as int]
                &&& (p as int) < lineage_store.slots_seq().len()
                &&& lineage_store.slots_seq()[p as int] is Some
                &&& lineage_store.slots_seq()[p as int]->0.lineage.indexed_location.location
                    == location
            },
    {
        proof {
            lemma_occupant_refs_valid(lineage_store.slots_seq(), location);
        }
        let capacity = habitat.get_habitat_at_location(&location);
        let chosen_slot = rng.sample_index(capacity as u64);
        let indexed_location = IndexedLocation::new(location, chosen_slot as u32);
        let occupants = lineage_store.occupants_at(&location);
        if (chosen_slot as usize) < occupants.len() {
            let partner = occupants[chosen_slot as usize];
            proof {
                let occ = occupant_refs(lineage_store.slots_seq(), location);
                assert(occupants@.map_values(|r: usize| r as int)[chosen_slot as int] == occ[
                    chosen_slot as int]);
                assert(partner as int == occ[chosen_slot as int]);
            }
            (indexed_location, Some(partner))
        } else {
            (indexed_location, None)
        }
    }
}

/// The store of the "independent" mode: each execution unit owns at most
/// one in-flight lineage, so there is no shared arena to consult.
#[derive(Clone, Copy, PartialEq, Eq, Structural, Debug)]
pub struct IndependentLineageStore;

impl IndependentLineageStore {
    pub fn new() -> (r: IndependentLineageStore)
        ensures
            r == IndependentLineageStore,
    {
        IndependentLineageStore
    }
}

/// The coalescence sampler of the independent mode: coalescence detection
/// is disabled by policy, so it always reports "no coalescence"; exact
/// coalescence counting is recovered offline from the reported event
/// stream.
#[derive(Clone, Copy, PartialEq, Eq, Structural, Debug)]
pub struct IndependentCoalescenceSampler;

impl IndependentCoalescenceSampler {
    pub fn new() -> (r: IndependentCoalescenceSampler)
        ensures
            r == IndependentCoalescenceSampler,
    {
        IndependentCoalescenceSampler
    }
}

impl CoalescenceSampler<IndependentLineageStore> for IndependentCoalescenceSampler {
    fn sample_optional_coalescence_at_location(
        &self,
        location: Location,
        habitat: &Habitat,
        lineage_store: &IndependentLineageStore,
        rng: &mut SimRng,
    ) -> (r: (IndexedLocation, Option<usize>))
        ensures
            r.0.location == location,
            r.0.index as int == drawn_slot(old(rng).state(), habitat.capacity_at(location)) as int,
            final(rng).state() == rng_next_state(old(rng).state()),
            r.1 is None,
    {
        let capacity = habitat.get_habitat_at_location(&location);
        let chosen_slot = rng.sample_index(capacity as u64);
        (IndexedLocation::new(location, chosen_slot as u32), None)
    }
}

} // verus!
