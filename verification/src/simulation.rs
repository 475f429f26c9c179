//! The simulation orchestrator: composes the cogs into an incremental
//! stepping engine with snapshot/rollback.

use vstd::prelude::*;
use crate::active::{
    min_slot, lemma_min_slot, pop_spec, peek_spec, schedule_next, EarlyStop,
    GillespieActiveLineageSampler,
};
use crate::coalescence::{drawn_slot, CoalescenceSampler, ConditionalCoalescenceSampler};
use crate::dispersal::DispersalSampler;
use crate::event::{Event, EventKind};
use crate::habitat::Habitat;
use crate::landscape::IndexedLocation;
use crate::lineage::{Lineage, TIME_INFINITY};
use crate::migration::{BufferedImmigrationEntry, Decomposition, DomainEmigrationExit,
    MigratingLineage};
use crate::rng::{event_of_draw, lemma_index_of_draw_bound, rng_next_state, rng_output, SimRng};
use crate::speciation::UniformSpeciationProbability;
use crate::store::{
    count_active, lemma_count_active_bound, lemma_count_active_clear, lemma_count_active_fill,
    lemma_count_active_push, lemma_occupant_refs_valid, occupant_refs, CoherentLineageStore,
    ScheduledLineage,
};
use crate::turnover::UniformTurnoverRate;

verus! {

/// The mathematical state of a simulation: every mutable and configured
/// part, as plain values and sequences.
pub struct SimulationModel<D> {
    pub habitat: Habitat,
    pub rng_seed: u64,
    pub rng_state: u64,
    pub speciation_probability: UniformSpeciationProbability,
    pub dispersal_sampler: D,
    pub turnover_rate: UniformTurnoverRate,
    pub decomposition: Decomposition,
    pub rank: u32,
    pub slots: Seq<Option<ScheduledLineage>>,
    pub emigration: Seq<MigratingLineage>,
    pub immigration: Seq<Lineage>,
    pub founders: u64,
    pub speciated: u64,
    pub coalesced: u64,
    pub last_event_time: u64,
}

/// Whether `lineage` may enter this simulation: it sits on habitable
/// ground and has not exhausted representable time.
pub open spec fn lineage_valid(habitat: Habitat, lineage: Lineage) -> bool {
    &&& habitat.is_habitable(lineage.indexed_location.location)
    &&& lineage.last_event_time < TIME_INFINITY
}

/// The simulation invariant.
///
/// Its last clause is the conservation law: the active lineages, the two
/// transfer queues, and the coalesced and speciated counters partition the
/// founders exactly — no lineage is ever lost or duplicated.
pub open spec fn model_wf<D: DispersalSampler>(m: SimulationModel<D>) -> bool {
    &&& m.habitat.wf()
    &&& m.dispersal_sampler.kernel_wf(m.habitat)
    &&& m.speciation_probability.wf()
    &&& m.turnover_rate.wf()
    &&& m.decomposition.wf(m.habitat)
    &&& m.rank < m.decomposition.num_partitions_spec()
    &&& forall|r: int|
        0 <= r < m.slots.len() ==> (#[trigger] m.slots[r] matches Some(x) ==> {
            &&& lineage_valid(m.habitat, x.lineage)
            &&& x.lineage.last_event_time < x.next_event_time
        })
    &&& forall|k: int|
        0 <= k < m.immigration.len() ==> lineage_valid(m.habitat, #[trigger] m.immigration[k])
    &&& forall|k: int|
        0 <= k < m.emigration.len() ==> {
            &&& lineage_valid(m.habitat, (#[trigger] m.emigration[k]).lineage)
            &&& m.emigration[k].destination < m.decomposition.num_partitions_spec()
        }
    &&& count_active(m.slots) + m.emigration.len() + m.immigration.len() + m.speciated
        + m.coalesced == m.founders
}

/// The outcome of one step on the model: either no event can fire, or the
/// engine moved to a new state and emitted one event.
pub enum StepModel<D> {
    Idle,
    Fired(SimulationModel<D>, Event),
}

/// One step of the event loop, on the mathematical state.
///
/// The earliest-scheduled lineage is popped (unless the early-stop
/// predicate aborts); a Bernoulli draw against the speciation probability
/// either retires it with a speciation event, or it disperses: the kernel
/// draws a target, the coalescence sampler draws a slot there, and the
/// lineage merges with the slot's occupant, emigrates if the target is
/// foreign, or is rescheduled locally.
#[verifier::opaque]
pub open spec fn step_spec<D: DispersalSampler>(m: SimulationModel<D>, early_stop: EarlyStop)
    -> StepModel<D> {
    match pop_spec(m.slots, early_stop) {
        None => StepModel::Idle,
        Some((j, x)) => {
            let lineage = x.lineage;
            let t = x.next_event_time;
            let slots1 = m.slots.update(j, None);
            let s1 = rng_next_state(m.rng_state);
            if event_of_draw(rng_output(m.rng_state), m.speciation_probability.probability_spec()) {
                let event = Event {
                    global_reference: lineage.global_reference,
                    time: t,
                    origin: lineage.indexed_location,
                    kind: EventKind::Speciation,
                };
                StepModel::Fired(
                    SimulationModel {
                        slots: slots1,
                        rng_state: s1,
                        speciated: (m.speciated + 1) as u64,
                        last_event_time: t,
                        ..m
                    },
                    event,
                )
            } else {
                let target = m.dispersal_sampler.target_spec(lineage.indexed_location, m.habitat, s1);
                let s2 = m.dispersal_sampler.state_after_spec(lineage.indexed_location, m.habitat, s1);
                let slot_index = drawn_slot(s2, m.habitat.capacity_at(target));
                let s3 = rng_next_state(s2);
                let target_indexed = IndexedLocation { location: target, index: slot_index as u32 };
                let occ = occupant_refs(slots1, target);
                if (slot_index as int) < occ.len() {
                    let partner_reference = slots1[occ[slot_index as int]]->0.lineage.global_reference;
                    let event = Event {
                        global_reference: lineage.global_reference,
                        time: t,
                        origin: lineage.indexed_location,
                        kind: EventKind::Dispersal {
                            target: target_indexed,
                            coalescence: Some(partner_reference),
                        },
                    };
                    StepModel::Fired(
                        SimulationModel {
                            slots: slots1,
                            rng_state: s3,
                            coalesced: (m.coalesced + 1) as u64,
                            last_event_time: t,
                            ..m
                        },
                        event,
                    )
                } else {
                    let event = Event {
                        global_reference: lineage.global_reference,
                        time: t,
                        origin: lineage.indexed_location,
                        kind: EventKind::Dispersal { target: target_indexed, coalescence: None },
                    };
                    let moved = Lineage {
                        global_reference: lineage.global_reference,
                        indexed_location: target_indexed,
                        last_event_time: t,
                    };
                    let destination = m.decomposition.rank_at(m.habitat.location_index(target));
                    if destination != m.rank {
                        StepModel::Fired(
                            SimulationModel {
                                slots: slots1,
                                rng_state: s3,
                                emigration: m.emigration.push(
                                    MigratingLineage { destination, lineage: moved, event },
                                ),
                                last_event_time: t,
                                ..m
                            },
                            event,
                        )
                    } else {
                        let next = schedule_next(t, m.turnover_rate.span_spec(), s3);
                        StepModel::Fired(
                            SimulationModel {
                                slots: slots1.update(
                                    j,
                                    Some(ScheduledLineage { lineage: moved, next_event_time: next }),
                                ),
                                rng_state: rng_next_state(s3),
                                last_event_time: t,
                                ..m
                            },
                            event,
                        )
                    }
                }
            }
        },
    }
}

/// A fired step preserves the simulation invariant, emits its event at the
/// popped schedule time, and moves only the popped lineage.
#[verifier::rlimit(100)]
#[verifier::spinoff_prover]
pub proof fn lemma_step_wf<D: DispersalSampler>(m: SimulationModel<D>, early_stop: EarlyStop)
    requires
        model_wf(m),
    ensures
        step_spec(m, early_stop) matches StepModel::Fired(m2, e) ==> {
            &&& model_wf(m2)
            &&& m2.last_event_time == e.time
            &&& e.time < TIME_INFINITY
            &&& m2.founders == m.founders
            &&& m2.habitat == m.habitat
            &&& m2.immigration == m.immigration
            &&& m2.rng_seed == m.rng_seed
            &&& m2.decomposition == m.decomposition
            &&& m2.rank == m.rank
            &&& m2.dispersal_sampler == m.dispersal_sampler
            &&& m2.turnover_rate == m.turnover_rate
            &&& m2.speciation_probability == m.speciation_probability
        },
{
    reveal(step_spec);
    lemma_min_slot(m.slots);
    broadcast use lemma_count_active_bound;

    let r = step_spec(m, early_stop);
    match pop_spec(m.slots, early_stop) {
        None => {},
        Some((j, x)) => {
            let t = x.next_event_time;
            let slots1 = m.slots.update(j, None);
            lemma_count_active_clear(m.slots, j);
            assert(count_active(slots1) == count_active(m.slots) - 1);
            assert(count_active(m.slots) >= 1);
            assert(forall|q: int|
                0 <= q < slots1.len() ==> (#[trigger] slots1[q] matches Some(y) ==> {
                    &&& lineage_valid(m.habitat, y.lineage)
                    &&& y.lineage.last_event_time < y.next_event_time
                }));
            let s1 = rng_next_state(m.rng_state);
            if event_of_draw(rng_output(m.rng_state), m.speciation_probability.probability_spec()) {
                let m2 = r->Fired_0;
                assert(m2.slots == slots1);
                assert(m2.speciated == (m.speciated + 1) as u64);
                assert(m.speciated + 1 <= m.founders);
                assert(model_wf(m2));
            } else {
                let origin = x.lineage.indexed_location;
                let target = m.dispersal_sampler.target_spec(origin, m.habitat, s1);
                m.dispersal_sampler.lemma_target_habitable(origin, m.habitat, s1);
                assert(m.habitat.is_habitable(target));
                let s2 = m.dispersal_sampler.state_after_spec(origin, m.habitat, s1);
                let capacity = m.habitat.capacity_at(target);
                lemma_index_of_draw_bound(rng_output(s2), capacity as u64);
                let slot_index = drawn_slot(s2, capacity);
                assert(slot_index < capacity);
                let occ = occupant_refs(slots1, target);
                if (slot_index as int) < occ.len() {
                    lemma_occupant_refs_valid(slots1, target);
                    let m2 = r->Fired_0;
                    assert(m2.slots == slots1);
                    assert(m2.coalesced == (m.coalesced + 1) as u64);
                    assert(m.coalesced + 1 <= m.founders);
                    assert(model_wf(m2));
                } else {
                    m.habitat.lemma_index_in_range(target);
                    let destination = m.decomposition.rank_at(m.habitat.location_index(target));
                    if destination != m.rank {
                        let m2 = r->Fired_0;
                        assert(m2.slots == slots1);
                        assert(m2.emigration.len() == m.emigration.len() + 1);
                        let moved = Lineage {
                            global_reference: x.lineage.global_reference,
                            indexed_location: IndexedLocation {
                                location: target,
                                index: slot_index as u32,
                            },
                            last_event_time: t,
                        };
                        assert(lineage_valid(m.habitat, moved));
                        assert(destination < m.decomposition.num_partitions_spec());
                        assert(m2.emigration == m.emigration.push(
                            MigratingLineage {
                                destination,
                                lineage: moved,
                                event: r->Fired_1,
                            },
                        ));
                        assert(forall|k: int|
                            0 <= k < m.emigration.len() ==> #[trigger] m2.emigration[k]
                                == m.emigration[k]);
                        assert(model_wf(m2));
                    } else {
                        let next = schedule_next(t, m.turnover_rate.span_spec(), rng_next_state(s2));
                        let moved = Lineage {
                            global_reference: x.lineage.global_reference,
                            indexed_location: IndexedLocation {
                                location: target,
                                index: slot_index as u32,
                            },
                            last_event_time: t,
                        };
                        let scheduled = ScheduledLineage { lineage: moved, next_event_time: next };
                        assert(t < next);
                        assert(lineage_valid(m.habitat, moved));
                        lemma_count_active_fill(slots1, j, scheduled);
                        let slots2 = slots1.update(j, Some(scheduled));
                        assert(count_active(slots2) == count_active(m.slots));
                        assert(forall|q: int|
                            0 <= q < slots2.len() ==> (#[trigger] slots2[q] matches Some(y) ==> {
                                &&& lineage_valid(m.habitat, y.lineage)
                                &&& y.lineage.last_event_time < y.next_event_time
                            }));
                        let m2 = r->Fired_0;
                        assert(m2.slots == slots2);
                        assert(model_wf(m2));
                    }
                }
            }
        },
    }
}

/// The live simulation: the composed cogs behind the incremental stepping
/// primitives.
#[derive(Clone, PartialEq, Eq, Debug)]
pub struct Simulation<D: DispersalSampler> {
    habitat: Habitat,
    rng: SimRng,
    speciation_probability: UniformSpeciationProbability,
    dispersal_sampler: D,
    turnover_rate: UniformTurnoverRate,
    lineage_store: CoherentLineageStore,
    active_lineage_sampler: GillespieActiveLineageSampler,
    coalescence_sampler: ConditionalCoalescenceSampler,
    decomposition: Decomposition,
    rank: u32,
    emigration_exit: DomainEmigrationExit,
    immigration_entry: BufferedImmigrationEntry,
    founders: u64,
    speciated: u64,
    coalesced: u64,
    last_event_time: u64,
}

impl<D: DispersalSampler> Simulation<D> {
    /// The mathematical state of this simulation.
    pub closed spec fn model(self) -> SimulationModel<D> {
        SimulationModel {
            habitat: self.habitat,
            rng_seed: self.rng.seed(),
            rng_state: self.rng.state(),
            speciation_probability: self.speciation_probability,
            dispersal_sampler: self.dispersal_sampler,
            turnover_rate: self.turnover_rate,
            decomposition: self.decomposition,
            rank: self.rank,
            slots: self.lineage_store.slots_seq(),
            emigration: self.emigration_exit.queue_seq(),
            immigration: self.immigration_entry.queue_seq(),
            founders: self.founders,
            speciated: self.speciated,
            coalesced: self.coalesced,
            last_event_time: self.last_event_time,
        }
    }

    pub open spec fn wf(self) -> bool {
        model_wf(self.model())
    }

    /// Process the next event, if one may fire under `early_stop`.
    ///
    /// The returned event and the new state are exactly `step_spec` of the
    /// old state: the engine is a deterministic function of its state.
    fn step(&mut self, early_stop: EarlyStop) -> (r: Option<Event>)
        requires
            old(self).wf(),
        ensures
            final(self).wf(),
            r is None <==> step_spec(old(self).model(), early_stop) is Idle,
            r is None ==> final(self).model() == old(self).model(),
            r matches Some(e) ==> step_spec(old(self).model(), early_stop) == StepModel::Fired(
                final(self).model(),
                e,
            ),
    {
        proof {
            reveal(step_spec);
            lemma_step_wf(old(self).model(), early_stop);
            lemma_min_slot(old(self).model().slots);
            broadcast use lemma_count_active_bound;
        }
        let sampler = self.active_lineage_sampler;
        match sampler.pop_active_lineage_and_event_time(&mut self.lineage_store, early_stop) {
            None => None,
            Some((j, x)) => {
                proof {
                    lemma_count_active_clear(old(self).model().slots, j as int);
                }
                let lineage = x.lineage;
                let t = x.next_event_time;
                let speciation = self.speciation_probability
                    .get_speciation_probability_at_location(
                    &lineage.indexed_location.location,
                    &self.habitat,
                );
                if self.rng.sample_event(speciation) {
                    let event = Event {
                        global_reference: lineage.global_reference,
                        time: t,
                        origin: lineage.indexed_location,
                        kind: EventKind::Speciation,
                    };
                    self.speciated = self.speciated + 1;
                    self.last_event_time = t;
                    Some(event)
                } else {
                    let target = self.dispersal_sampler.sample_dispersal(
                        &lineage.indexed_location,
                        &self.habitat,
                        &mut self.rng,
                    );
                    let coalescence_sampler = self.coalescence_sampler;
                    let (target_indexed, partner) = coalescence_sampler
                        .sample_optional_coalescence_at_location(
                        target,
                        &self.habitat,
                        &self.lineage_store,
                        &mut self.rng,
                    );
                    match partner {
                        Some(p) => {
                            let partner_global = self.lineage_store.get_scheduled(p).unwrap()
                                .lineage.global_reference;
                            let event = Event {
                                global_reference: lineage.global_reference,
                                time: t,
                                origin: lineage.indexed_location,
                                kind: EventKind::Dispersal {
                                    target: target_indexed,
                                    coalescence: Some(partner_global),
                                },
                            };
                            self.coalesced = self.coalesced + 1;
                            self.last_event_time = t;
                            Some(event)
                        },
                        None => {
                            let event = Event {
                                global_reference: lineage.global_reference,
                                time: t,
                                origin: lineage.indexed_location,
                                kind: EventKind::Dispersal {
                                    target: target_indexed,
                                    coalescence: None,
                                },
                            };
                            let moved = Lineage {
                                global_reference: lineage.global_reference,
                                indexed_location: target_indexed,
                                last_event_time: t,
                            };
                            let destination = self.decomposition.rank_for_location(
                                &target,
                                &self.habitat,
                            );
                            if destination != self.rank {
                                self.emigration_exit.enqueue(
                                    MigratingLineage { destination, lineage: moved, event },
                                );
                            } else {
                                let scheduled = sampler.schedule_lineage(
                                    moved,
                                    &self.turnover_rate,
                                    &mut self.rng,
                                );
                                self.lineage_store.restore(j, scheduled);
                            }
                            self.last_event_time = t;
                            Some(event)
                        },
                    }
                }
            },
        }
    }
}

/// The trace of up to `fuel` steps from `m`: the final state and the
/// events emitted, in order.
pub open spec fn run_for_spec<D: DispersalSampler>(m: SimulationModel<D>, fuel: nat) -> (
    SimulationModel<D>,
    Seq<Event>,
)
    decreases fuel,
{
    if fuel == 0 {
        (m, Seq::empty())
    } else {
        match step_spec(m, EarlyStop::Never) {
            StepModel::Idle => (m, Seq::empty()),
            StepModel::Fired(m2, e) => {
                let rest = run_for_spec(m2, (fuel - 1) as nat);
                (rest.0, seq![e] + rest.1)
            },
        }
    }
}

/// Stepping preserves the invariant and never touches the configuration,
/// the ledger, or the immigration queue.
pub proof fn lemma_run_for_frame<D: DispersalSampler>(m: SimulationModel<D>, fuel: nat)
    requires
        model_wf(m),
    ensures
        ({
            let m2 = run_for_spec(m, fuel).0;
            &&& model_wf(m2)
            &&& m2.habitat == m.habitat
            &&& m2.founders == m.founders
            &&& m2.immigration == m.immigration
            &&& m2.decomposition == m.decomposition
            &&& m2.rank == m.rank
            &&& m2.dispersal_sampler == m.dispersal_sampler
            &&& m2.turnover_rate == m.turnover_rate
            &&& m2.speciation_probability == m.speciation_probability
            &&& m2.rng_seed == m.rng_seed
        }),
    decreases fuel,
{
    if fuel > 0 {
        lemma_step_wf(m, EarlyStop::Never);
        match step_spec(m, EarlyStop::Never) {
            StepModel::Idle => {},
            StepModel::Fired(m2, e) => {
                lemma_run_for_frame(m2, (fuel - 1) as nat);
            },
        }
    }
}

/// A state that cannot step stays put under any fuel.
pub proof fn lemma_run_for_idle<D: DispersalSampler>(m: SimulationModel<D>, fuel: nat)
    requires
        step_spec(m, EarlyStop::Never) is Idle,
    ensures
        run_for_spec(m, fuel) == (m, Seq::<Event>::empty()),
{
}

/// The state after scheduling every queued immigrant, most recent first.
pub open spec fn absorb_spec<D: DispersalSampler>(m: SimulationModel<D>) -> SimulationModel<D>
    decreases m.immigration.len(),
{
    if m.immigration.len() == 0 {
        m
    } else {
        let l = m.immigration.last();
        let next = schedule_next(l.last_event_time, m.turnover_rate.span_spec(), m.rng_state);
        absorb_spec(
            SimulationModel {
                slots: m.slots.push(Some(ScheduledLineage { lineage: l, next_event_time: next })),
                rng_state: rng_next_state(m.rng_state),
                immigration: m.immigration.drop_last(),
                ..m
            },
        )
    }
}

/// Absorbing immigrants preserves the invariant, empties the immigration
/// queue, and touches nothing but the slots, the generator counter and the
/// queue.
pub proof fn lemma_absorb_wf<D: DispersalSampler>(m: SimulationModel<D>)
    requires
        model_wf(m),
    ensures
        ({
            let m2 = absorb_spec(m);
            &&& model_wf(m2)
            &&& m2.immigration.len() == 0
            &&& m2.habitat == m.habitat
            &&& m2.founders == m.founders
            &&& m2.emigration == m.emigration
            &&& m2.speciated == m.speciated
            &&& m2.coalesced == m.coalesced
            &&& m2.last_event_time == m.last_event_time
            &&& m2.rng_seed == m.rng_seed
            &&& m2.decomposition == m.decomposition
            &&& m2.rank == m.rank
            &&& m2.dispersal_sampler == m.dispersal_sampler
            &&& m2.turnover_rate == m.turnover_rate
            &&& m2.speciation_probability == m.speciation_probability
        }),
    decreases m.immigration.len(),
{
    if m.immigration.len() > 0 {
        let l = m.immigration.last();
        let next = schedule_next(l.last_event_time, m.turnover_rate.span_spec(), m.rng_state);
        let x = ScheduledLineage { lineage: l, next_event_time: next };
        lemma_count_active_push(m.slots, x);
        let m1 = SimulationModel {
            slots: m.slots.push(Some(x)),
            rng_state: rng_next_state(m.rng_state),
            immigration: m.immigration.drop_last(),
            ..m
        };
        assert(l.last_event_time < next);
        assert(forall|q: int|
            0 <= q < m1.slots.len() ==> (#[trigger] m1.slots[q] matches Some(y) ==> {
                &&& lineage_valid(m1.habitat, y.lineage)
                &&& y.lineage.last_event_time < y.next_event_time
            }));
        assert(forall|k: int|
            0 <= k < m1.immigration.len() ==> lineage_valid(
                m1.habitat,
                #[trigger] m1.immigration[k],
            ));
        lemma_absorb_wf(m1);
    }
}

/// Whether no two active lineages share a global reference. Genesis
/// assigns unique references and no step ever creates one, so this holds
/// of every reachable state whose founders were distinct.
pub open spec fn distinct_refs(slots: Seq<Option<ScheduledLineage>>) -> bool {
    forall|r1: int, r2: int|
        0 <= r1 < slots.len() && 0 <= r2 < slots.len() && r1 != r2 && #[trigger] slots[r1] is Some
            && #[trigger] slots[r2] is Some ==> slots[r1]->0.lineage.global_reference
            != slots[r2]->0.lineage.global_reference
}

/// The slot currently holding the lineage with global reference `g`.
pub open spec fn find_ref(slots: Seq<Option<ScheduledLineage>>, g: u64) -> Option<int>
    decreases slots.len(),
{
    if slots.len() == 0 {
        None
    } else {
        match find_ref(slots.drop_last(), g) {
            Some(q) => Some(q),
            None => if slots.last() matches Some(x) && x.lineage.global_reference == g {
                Some(slots.len() - 1)
            } else {
                None
            },
        }
    }
}

pub proof fn lemma_find_ref(slots: Seq<Option<ScheduledLineage>>, g: u64)
    ensures
        find_ref(slots, g) matches Some(q) ==> 0 <= q < slots.len() && slots[q] is Some
            && slots[q]->0.lineage.global_reference == g,
        find_ref(slots, g) is None ==> forall|q: int|
            0 <= q < slots.len() && #[trigger] slots[q] is Some ==> slots[q]->0
                .lineage.global_reference != g,
    decreases slots.len(),
{
    if slots.len() > 0 {
        lemma_find_ref(slots.drop_last(), g);
        assert(forall|q: int| 0 <= q < slots.len() - 1 ==> slots[q] == #[trigger] slots.drop_last(
        )[q]);
        assert(slots.last() == slots[slots.len() - 1]);
        if find_ref(slots, g) is None {
            assert forall|q: int|
                0 <= q < slots.len() && #[trigger] slots[q] is Some implies slots[q]->0
                .lineage.global_reference != g by {
                if q < slots.len() - 1 {
                    assert(slots.drop_last()[q] is Some);
                }
            }
        }
    }
}

/// Under distinct references, a slot holding `g` is found.
pub proof fn lemma_find_ref_present(slots: Seq<Option<ScheduledLineage>>, g: u64, q: int)
    requires
        0 <= q < slots.len(),
        slots[q] is Some,
        slots[q]->0.lineage.global_reference == g,
    ensures
        find_ref(slots, g) is Some,
    decreases slots.len(),
{
    if slots.len() > 0 {
        if q < slots.len() - 1 {
            assert(slots.drop_last()[q] == slots[q]);
            lemma_find_ref_present(slots.drop_last(), g, q);
        }
    }
}

/// Monotonic time: in any trace of the engine from a state whose active
/// lineages carry distinct references, every event's lineage was active at
/// the start, every event fires strictly after that lineage's recorded
/// last event, and for every single lineage the sequence of its event
/// timestamps is strictly increasing.
pub proof fn lemma_monotonic_time<D: DispersalSampler>(m: SimulationModel<D>, fuel: nat)
    requires
        model_wf(m),
        distinct_refs(m.slots),
    ensures
        ({
            let trace = run_for_spec(m, fuel).1;
            &&& forall|k: int|
                0 <= k < trace.len() ==> find_ref(m.slots, (#[trigger] trace[k]).global_reference)
                    is Some
            &&& forall|k: int|
                0 <= k < trace.len() ==> (#[trigger] trace[k]).time > m.slots[find_ref(
                    m.slots,
                    trace[k].global_reference,
                )->0]->0.lineage.last_event_time
            &&& forall|i: int, j: int|
                0 <= i < j < trace.len() && (#[trigger] trace[i]).global_reference == (
                #[trigger] trace[j]).global_reference ==> trace[i].time < trace[j].time
        }),
    decreases fuel,
{
    reveal(step_spec);
    if fuel > 0 {
        lemma_step_wf(m, EarlyStop::Never);
        lemma_min_slot(m.slots);
        match step_spec(m, EarlyStop::Never) {
            StepModel::Idle => {},
            StepModel::Fired(m2, e) => {
                let popped = pop_spec(m.slots, EarlyStop::Never)->0;
                let j = popped.0;
                let x = popped.1;
                let g = x.lineage.global_reference;
                assert(m.slots[j] == Some(x));
                assert(e.global_reference == g);
                assert(e.time == x.next_event_time);
                // the changed state still has distinct references
                assert(distinct_refs(m2.slots)) by {
                    assert(forall|q: int|
                        0 <= q < m2.slots.len() && q != j && #[trigger] m2.slots[q] is Some
                            ==> m2.slots[q] == m.slots[q]);
                    assert(m2.slots[j] is Some ==> m2.slots[j]->0.lineage.global_reference == g);
                }
                lemma_monotonic_time(m2, (fuel - 1) as nat);
                let rest = run_for_spec(m2, (fuel - 1) as nat).1;
                let trace = run_for_spec(m, fuel).1;
                assert(trace == seq![e] + rest);
                assert(trace[0] == e);
                assert(forall|k: int| 1 <= k < trace.len() ==> trace[k] == #[trigger] rest[k - 1]);
                lemma_find_ref_present(m.slots, g, j);
                lemma_find_ref(m.slots, g);
                // every event of the rest belongs to a lineage active now,
                // and fires strictly after its recorded time
                assert forall|k: int| 1 <= k < trace.len() implies {
                    &&& find_ref(m.slots, (#[trigger] trace[k]).global_reference) is Some
                    &&& trace[k].time > m.slots[find_ref(
                        m.slots,
                        trace[k].global_reference,
                    )->0]->0.lineage.last_event_time
                    &&& (trace[k].global_reference == g ==> trace[k].time > e.time)
                } by {
                    let gr = rest[k - 1].global_reference;
                    lemma_find_ref(m2.slots, gr);
                    let q2 = find_ref(m2.slots, gr)->0;
                    if q2 == j {
                        assert(m2.slots[j] is Some);
                        assert(m2.slots[j]->0.lineage.global_reference == g);
                        assert(gr == g);
                        assert(m2.slots[j]->0.lineage.last_event_time == e.time);
                        assert(rest[k - 1].time > e.time);
                        lemma_find_ref_present(m.slots, g, j);
                        lemma_find_ref(m.slots, g);
                        assert(find_ref(m.slots, g)->0 == j || m.slots[find_ref(m.slots, g)->0]
                            is Some);
                        assert(m.slots[find_ref(m.slots, g)->0]->0.lineage.global_reference == g);
                        assert(find_ref(m.slots, g)->0 == j);
                        assert(trace[k].time > m.slots[j]->0.lineage.last_event_time);
                    } else {
                        assert(m2.slots[q2] == m.slots[q2]);
                        lemma_find_ref_present(m.slots, gr, q2);
                        lemma_find_ref(m.slots, gr);
                        let q1 = find_ref(m.slots, gr)->0;
                        assert(m.slots[q1]->0.lineage.global_reference == gr);
                        assert(q1 == q2 || q1 == j) by {
                            if q1 != q2 && q1 != j {
                                assert(m.slots[q1] is Some && m.slots[q2] is Some);
                                assert(false);
                            }
                        }
                        if q1 == j {
                            assert(gr == g);
                            assert(m2.slots[q2]->0.lineage.global_reference == g);
                            assert(q2 != j && m2.slots[j] is Some ==> false);
                            assert(m.slots[q2] is Some && q2 != j);
                            assert(false);
                        }
                        assert(trace[k].time > m.slots[q1]->0.lineage.last_event_time);
                        if gr == g {
                            assert(m.slots[q2]->0.lineage.global_reference == g);
                            assert(q2 != j);
                            assert(false);
                        }
                    }
                }
                // pairwise strictness
                assert forall|i: int, k: int|
                    0 <= i < k < trace.len() && (#[trigger] trace[i]).global_reference == (
                    #[trigger] trace[k]).global_reference implies trace[i].time
                    < trace[k].time by {
                    if i == 0 {
                        assert(trace[k].global_reference == g ==> trace[k].time > e.time);
                    } else {
                        assert(rest[i - 1].time < rest[k - 1].time);
                    }
                }
            },
        }
    }
}

/// Conservation: at every point along any trace of the engine, the active
/// lineages, the two transfer queues, and the coalesced and speciated
/// counters partition the founders exactly — no lineage is ever lost or
/// duplicated, and the founder ledger itself never changes.
pub proof fn lemma_conservation<D: DispersalSampler>(m: SimulationModel<D>, fuel: nat)
    requires
        model_wf(m),
    ensures
        ({
            let m2 = run_for_spec(m, fuel).0;
            &&& count_active(m2.slots) + m2.emigration.len() + m2.immigration.len() + m2.speciated
                + m2.coalesced == m2.founders
            &&& m2.founders == m.founders
        }),
{
    lemma_run_for_frame(m, fuel);
}

/// Rollback idempotence: two simulations restored from the same snapshot,
/// as long as their configurations agree, stand in the same state — so
/// replaying any number of steps yields the identical trace both times,
/// and replaying zero steps changes nothing.
pub proof fn lemma_rollback_replay<D: DispersalSampler>(
    backup: SimulationBackup,
    config1: SimulationModel<D>,
    config2: SimulationModel<D>,
    fuel: nat,
)
    requires
        config1.habitat == config2.habitat,
        config1.speciation_probability == config2.speciation_probability,
        config1.dispersal_sampler == config2.dispersal_sampler,
        config1.turnover_rate == config2.turnover_rate,
        config1.decomposition == config2.decomposition,
        config1.rank == config2.rank,
    ensures
        backup.restored_model(config1) == backup.restored_model(config2),
        run_for_spec(backup.restored_model(config1), fuel) == run_for_spec(
            backup.restored_model(config2),
            fuel,
        ),
        run_for_spec(backup.restored_model(config1), 0) == (
            backup.restored_model(config1),
            Seq::<Event>::empty(),
        ),
{
}

/// The weight a slot contributes to the termination measure of a bounded
/// stepping loop: how many ticks its schedule still lies before the bound.
pub open spec fn slot_weight(early_stop: EarlyStop, s: Option<ScheduledLineage>) -> int {
    match s {
        None => 0,
        Some(x) => match early_stop {
            EarlyStop::Never => 0,
            EarlyStop::AtOrAfter(bound) => if x.next_event_time < bound {
                bound - x.next_event_time
            } else {
                0
            },
            EarlyStop::After(bound) => if x.next_event_time <= bound {
                bound + 1 - x.next_event_time
            } else {
                0
            },
        },
    }
}

/// The termination measure of a bounded stepping loop over slot contents.
pub open spec fn sum_weights(early_stop: EarlyStop, s: Seq<Option<ScheduledLineage>>) -> int
    decreases s.len(),
{
    if s.len() == 0 {
        0
    } else {
        sum_weights(early_stop, s.drop_last()) + slot_weight(early_stop, s.last())
    }
}

pub proof fn lemma_sum_weights_nonneg(early_stop: EarlyStop, s: Seq<Option<ScheduledLineage>>)
    ensures
        0 <= sum_weights(early_stop, s),
    decreases s.len(),
{
    if s.len() > 0 {
        lemma_sum_weights_nonneg(early_stop, s.drop_last());
    }
}

pub proof fn lemma_sum_weights_update(
    early_stop: EarlyStop,
    s: Seq<Option<ScheduledLineage>>,
    j: int,
    v: Option<ScheduledLineage>,
)
    requires
        0 <= j < s.len(),
    ensures
        sum_weights(early_stop, s.update(j, v)) == sum_weights(early_stop, s) - slot_weight(
            early_stop,
            s[j],
        ) + slot_weight(early_stop, v),
    decreases s.len(),
{
    let t = s.update(j, v);
    if j == s.len() - 1 {
        assert(t.drop_last() =~= s.drop_last());
    } else {
        assert(t.drop_last() =~= s.drop_last().update(j, v));
        assert(t.last() == s.last());
        lemma_sum_weights_update(early_stop, s.drop_last(), j, v);
    }
}

/// The complete bounded trace from `m`: step while the early-stop
/// predicate admits an event, collecting the emitted events in order. It
/// terminates because every admitted step strictly shrinks the bounded
/// measure.
pub open spec fn run_until_spec<D: DispersalSampler>(m: SimulationModel<D>, early_stop: EarlyStop)
    -> (SimulationModel<D>, Seq<Event>)
    decreases sum_weights(early_stop, m.slots)
        when model_wf(m) && !(early_stop is Never)
        via run_until_spec_decreases::<D>
{
    match step_spec(m, early_stop) {
        StepModel::Idle => (m, Seq::empty()),
        StepModel::Fired(m2, e) => {
            let rest = run_until_spec(m2, early_stop);
            (rest.0, seq![e] + rest.1)
        },
    }
}

#[via_fn]
proof fn run_until_spec_decreases<D: DispersalSampler>(m: SimulationModel<D>, early_stop: EarlyStop) {
    lemma_step_wf(m, early_stop);
    lemma_step_decreases_measure(m, early_stop);
    lemma_sum_weights_nonneg(early_stop, m.slots);
    match step_spec(m, early_stop) {
        StepModel::Idle => {},
        StepModel::Fired(m2, e) => {
            lemma_sum_weights_nonneg(early_stop, m2.slots);
        },
    }
}

/// A bounded trace preserves the invariant and the configuration, like the
/// fueled trace does.
pub proof fn lemma_run_until_frame<D: DispersalSampler>(m: SimulationModel<D>, early_stop: EarlyStop)
    requires
        model_wf(m),
        !(early_stop is Never),
    ensures
        ({
            let m2 = run_until_spec(m, early_stop).0;
            &&& model_wf(m2)
            &&& m2.habitat == m.habitat
            &&& m2.founders == m.founders
            &&& m2.immigration == m.immigration
            &&& m2.decomposition == m.decomposition
            &&& m2.rank == m.rank
            &&& m2.dispersal_sampler == m.dispersal_sampler
            &&& m2.turnover_rate == m.turnover_rate
            &&& m2.speciation_probability == m.speciation_probability
            &&& m2.rng_seed == m.rng_seed
        }),
    decreases sum_weights(early_stop, m.slots),
{
    lemma_step_wf(m, early_stop);
    lemma_step_decreases_measure(m, early_stop);
    lemma_sum_weights_nonneg(early_stop, m.slots);
    match step_spec(m, early_stop) {
        StepModel::Idle => {},
        StepModel::Fired(m2, e) => {
            lemma_sum_weights_nonneg(early_stop, m2.slots);
            lemma_run_until_frame(m2, early_stop);
        },
    }
}

/// Every event of a bounded trace fires no earlier than `bound`, when
/// every active schedule lies at or after `bound`.
pub proof fn lemma_run_until_floor<D: DispersalSampler>(
    m: SimulationModel<D>,
    early_stop: EarlyStop,
    bound: u64,
)
    requires
        model_wf(m),
        !(early_stop is Never),
        forall|q: int|
            0 <= q < m.slots.len() && #[trigger] m.slots[q] is Some ==> m.slots[q]->0
                .next_event_time >= bound,
    ensures
        forall|k: int|
            0 <= k < run_until_spec(m, early_stop).1.len() ==> (#[trigger] run_until_spec(
                m,
                early_stop,
            ).1[k]).time >= bound,
    decreases sum_weights(early_stop, m.slots),
{
    lemma_step_wf(m, early_stop);
    lemma_step_orders(m, early_stop);
    lemma_step_decreases_measure(m, early_stop);
    lemma_sum_weights_nonneg(early_stop, m.slots);
    lemma_min_slot(m.slots);
    match step_spec(m, early_stop) {
        StepModel::Idle => {},
        StepModel::Fired(m2, e) => {
            lemma_sum_weights_nonneg(early_stop, m2.slots);
            assert(e.time >= bound) by {
                let popped = pop_spec(m.slots, early_stop)->0;
                assert(m.slots[popped.0] is Some);
            }
            lemma_run_until_floor(m2, early_stop, bound);
            let rest = run_until_spec(m2, early_stop).1;
            assert(run_until_spec(m, early_stop).1 == seq![e] + rest);
            assert(forall|k: int|
                1 <= k < run_until_spec(m, early_stop).1.len() ==> run_until_spec(
                    m,
                    early_stop,
                ).1[k] == #[trigger] rest[k - 1]);
        },
    }
}

/// The reporting sink sees non-decreasing timestamps along a bounded
/// trace: the ordering guarantee each partition's advance upholds.
pub proof fn lemma_run_until_times_nondecreasing<D: DispersalSampler>(
    m: SimulationModel<D>,
    early_stop: EarlyStop,
)
    requires
        model_wf(m),
        !(early_stop is Never),
    ensures
        crate::event::events_times_nondecreasing(run_until_spec(m, early_stop).1),
    decreases sum_weights(early_stop, m.slots),
{
    lemma_step_wf(m, early_stop);
    lemma_step_orders(m, early_stop);
    lemma_step_decreases_measure(m, early_stop);
    lemma_sum_weights_nonneg(early_stop, m.slots);
    match step_spec(m, early_stop) {
        StepModel::Idle => {},
        StepModel::Fired(m2, e) => {
            lemma_sum_weights_nonneg(early_stop, m2.slots);
            lemma_run_until_times_nondecreasing(m2, early_stop);
            lemma_run_until_floor(m2, early_stop, e.time);
            let trace = run_until_spec(m, early_stop).1;
            let rest = run_until_spec(m2, early_stop).1;
            assert(trace == seq![e] + rest);
            assert(forall|k: int| 1 <= k < trace.len() ==> trace[k] == #[trigger] rest[k - 1]);
            assert forall|i: int, j: int| 0 <= i < j < trace.len() implies #[trigger] trace[i].time
                <= #[trigger] trace[j].time by {
                if i == 0 {
                    assert(rest[j - 1].time >= e.time);
                } else {
                    assert(rest[i - 1].time <= rest[j - 1].time);
                }
            }
        },
    }
}

/// Under a time bound, every fired step strictly shrinks the measure: the
/// processed lineage either leaves the active set or is rescheduled
/// strictly later.
pub proof fn lemma_step_decreases_measure<D: DispersalSampler>(
    m: SimulationModel<D>,
    early_stop: EarlyStop,
)
    requires
        model_wf(m),
        !(early_stop is Never),
    ensures
        step_spec(m, early_stop) matches StepModel::Fired(m2, e) ==> sum_weights(
            early_stop,
            m2.slots,
        ) < sum_weights(early_stop, m.slots),
{
    reveal(step_spec);
    lemma_min_slot(m.slots);
    match pop_spec(m.slots, early_stop) {
        None => {},
        Some((j, x)) => {
            let t = x.next_event_time;
            let slots1 = m.slots.update(j, None);
            lemma_sum_weights_update(early_stop, m.slots, j, None);
            assert(slot_weight(early_stop, m.slots[j]) >= 1);
            let s1 = rng_next_state(m.rng_state);
            if event_of_draw(rng_output(m.rng_state), m.speciation_probability.probability_spec()) {
            } else {
                let origin = x.lineage.indexed_location;
                let target = m.dispersal_sampler.target_spec(origin, m.habitat, s1);
                let s2 = m.dispersal_sampler.state_after_spec(origin, m.habitat, s1);
                let slot_index = drawn_slot(s2, m.habitat.capacity_at(target));
                let occ = occupant_refs(slots1, target);
                if (slot_index as int) < occ.len() {
                } else {
                    let destination = m.decomposition.rank_at(m.habitat.location_index(target));
                    if destination != m.rank {
                    } else {
                        let next = schedule_next(
                            t,
                            m.turnover_rate.span_spec(),
                            rng_next_state(s2),
                        );
                        let moved = Lineage {
                            global_reference: x.lineage.global_reference,
                            indexed_location: IndexedLocation {
                                location: target,
                                index: slot_index as u32,
                            },
                            last_event_time: t,
                        };
                        let scheduled = ScheduledLineage { lineage: moved, next_event_time: next };
                        lemma_sum_weights_update(early_stop, slots1, j, Some(scheduled));
                        assert(slot_weight(early_stop, Some(scheduled)) < slot_weight(
                            early_stop,
                            m.slots[j],
                        ));
                    }
                }
            }
        },
    }
}

/// A fired step leaves no active schedule before its own event time: the
/// sink sees non-decreasing timestamps within a partition. The event fires
/// at the popped lineage's scheduled time.
pub proof fn lemma_step_orders<D: DispersalSampler>(m: SimulationModel<D>, early_stop: EarlyStop)
    requires
        model_wf(m),
    ensures
        step_spec(m, early_stop) matches StepModel::Fired(m2, e) ==> {
            &&& forall|q: int|
                0 <= q < m2.slots.len() && #[trigger] m2.slots[q] is Some
                    ==> m2.slots[q]->0.next_event_time >= e.time
            &&& pop_spec(m.slots, early_stop) matches Some(p)
            &&& 0 <= (pop_spec(m.slots, early_stop)->0).0 < m.slots.len()
            &&& m.slots[(pop_spec(m.slots, early_stop)->0).0] is Some
            &&& (pop_spec(m.slots, early_stop)->0).1.next_event_time == e.time
        },
{
    reveal(step_spec);
    lemma_min_slot(m.slots);
    match pop_spec(m.slots, early_stop) {
        None => {},
        Some((j, x)) => {
            let t = x.next_event_time;
            let slots1 = m.slots.update(j, None);
            assert(forall|q: int|
                0 <= q < slots1.len() && #[trigger] slots1[q] is Some ==> slots1[q]->0
                    .next_event_time >= t);
        },
    }
}

/// A deep snapshot of all mutable simulation state, used as a rollback
/// point for optimistic speculative execution.
#[derive(Clone, PartialEq, Eq, Debug)]
pub struct SimulationBackup {
    rng: SimRng,
    slots: Vec<Option<ScheduledLineage>>,
    emigration: Vec<MigratingLineage>,
    immigration: Vec<Lineage>,
    founders: u64,
    speciated: u64,
    coalesced: u64,
    last_event_time: u64,
}

fn copy_vec<T: Copy>(v: &Vec<T>) -> (r: Vec<T>)
    ensures
        r@ == v@,
{
    let mut r: Vec<T> = Vec::new();
    let mut i: usize = 0;
    while i < v.len()
        invariant
            i <= v@.len(),
            r@ == v@.take(i as int),
        decreases v@.len() - i,
    {
        r.push(v[i]);
        proof {
            assert(r@ =~= v@.take(i + 1));
        }
        i = i + 1;
    }
    proof {
        assert(v@.take(v@.len() as int) =~= v@);
    }
    r
}

impl SimulationBackup {
    /// The mutable state this snapshot would restore into a simulation
    /// configured as `config`.
    pub open spec fn restored_model<D: DispersalSampler>(self, config: SimulationModel<D>)
        -> SimulationModel<D> {
        SimulationModel {
            rng_seed: self.rng_spec().seed(),
            rng_state: self.rng_spec().state(),
            slots: self.slots_seq(),
            emigration: self.emigration_seq(),
            immigration: self.immigration_seq(),
            founders: self.founders_spec(),
            speciated: self.speciated_spec(),
            coalesced: self.coalesced_spec(),
            last_event_time: self.last_event_time_spec(),
            ..config
        }
    }

    pub closed spec fn rng_spec(self) -> SimRng {
        self.rng
    }

    pub closed spec fn slots_seq(self) -> Seq<Option<ScheduledLineage>> {
        self.slots@
    }

    pub closed spec fn emigration_seq(self) -> Seq<MigratingLineage> {
        self.emigration@
    }

    pub closed spec fn immigration_seq(self) -> Seq<Lineage> {
        self.immigration@
    }

    pub closed spec fn founders_spec(self) -> u64 {
        self.founders
    }

    pub closed spec fn speciated_spec(self) -> u64 {
        self.speciated
    }

    pub closed spec fn coalesced_spec(self) -> u64 {
        self.coalesced
    }

    pub closed spec fn last_event_time_spec(self) -> u64 {
        self.last_event_time
    }
}

impl<D: DispersalSampler> Simulation<D> {
    /// Take a deep snapshot of all mutable state: restoring it reproduces
    /// behaviour identical to the moment it was taken.
    pub fn backup(&self) -> (b: SimulationBackup)
        ensures
            b.restored_model(self.model()) == self.model(),
    {
        SimulationBackup {
            rng: self.rng,
            slots: copy_vec(&self.lineage_store.raw_slots()),
            emigration: copy_vec(&self.emigration_exit.raw_queue()),
            immigration: copy_vec(&self.immigration_entry.raw_queue()),
            founders: self.founders,
            speciated: self.speciated,
            coalesced: self.coalesced,
            last_event_time: self.last_event_time,
        }
    }

    /// Discard this simulation's mutable state and restore the snapshot's,
    /// without re-deriving history. The configuration (habitat, policies,
    /// decomposition) stays as it is; it is never mutated between a
    /// snapshot and its restoration.
    pub fn resume(&mut self, backup: &SimulationBackup)
        ensures
            final(self).model() == backup.restored_model(old(self).model()),
    {
        self.rng = backup.rng;
        self.lineage_store.replace_slots(copy_vec(&backup.slots));
        self.emigration_exit.replace_queue(copy_vec(&backup.emigration));
        self.immigration_entry.replace_queue(copy_vec(&backup.immigration));
        self.founders = backup.founders;
        self.speciated = backup.speciated;
        self.coalesced = backup.coalesced;
        self.last_event_time = backup.last_event_time;
    }

    /// Schedule every queued immigrant into the local active set, most
    /// recent arrival first.
    pub fn absorb_immigration(&mut self)
        requires
            old(self).wf(),
        ensures
            final(self).wf(),
            final(self).model() == absorb_spec(old(self).model()),
            final(self).model().immigration.len() == 0,
    {
        proof {
            lemma_absorb_wf(old(self).model());
        }
        loop
            invariant
                self.wf(),
                absorb_spec(self.model()) == absorb_spec(old(self).model()),
            ensures
                self.wf(),
                absorb_spec(self.model()) == absorb_spec(old(self).model()),
                self.model().immigration.len() == 0,
            decreases self.model().immigration.len(),
        {
            proof {
                lemma_absorb_wf(self.model());
            }
            let next = self.immigration_entry.pop();
            match next {
                Some(lineage) => {
                    let sampler = self.active_lineage_sampler;
                    let scheduled = sampler.schedule_lineage(
                        lineage,
                        &self.turnover_rate,
                        &mut self.rng,
                    );
                    proof {
                        lemma_count_active_push(
                            self.lineage_store.slots_seq(),
                            scheduled,
                        );
                    }
                    self.lineage_store.append(scheduled);
                },
                None => {
                    break ;
                },
            }
        }
        proof {
            lemma_absorb_wf(self.model());
        }
    }

    /// Non-destructive lookahead: when the next local event would fire.
    pub fn peek_time_of_next_event(&self) -> (r: Option<u64>)
        ensures
            r == peek_spec(self.model().slots),
    {
        self.active_lineage_sampler.peek_next_time(&self.lineage_store)
    }

    /// How many lineages are still active locally.
    pub fn number_active_lineages(&self) -> (r: usize)
        ensures
            r as int == count_active(self.model().slots),
    {
        self.lineage_store.number_active_lineages()
    }

    pub fn get_last_event_time(&self) -> (r: u64)
        ensures
            r == self.model().last_event_time,
    {
        self.last_event_time
    }

    pub fn get_founders(&self) -> (r: u64)
        ensures
            r == self.model().founders,
    {
        self.founders
    }

    pub fn get_speciated(&self) -> (r: u64)
        ensures
            r == self.model().speciated,
    {
        self.speciated
    }

    pub fn get_coalesced(&self) -> (r: u64)
        ensures
            r == self.model().coalesced,
    {
        self.coalesced
    }

    /// The earliest departure timestamp queued for emigration.
    pub fn min_emigration_event_time(&self) -> (r: Option<u64>)
        ensures
            r == crate::migration::min_emigration_time(self.model().emigration),
    {
        self.emigration_exit.min_event_time()
    }

    pub fn number_queued_emigrants(&self) -> (r: usize)
        ensures
            r == self.model().emigration.len(),
    {
        self.emigration_exit.len()
    }

    /// Remove every queued emigrant for transfer; this partition stops
    /// accounting for them.
    pub fn take_emigrants(&mut self) -> (r: Vec<MigratingLineage>)
        requires
            old(self).wf(),
        ensures
            final(self).wf(),
            r@ == old(self).model().emigration,
            final(self).model() == (SimulationModel {
                emigration: Seq::<MigratingLineage>::empty(),
                founders: (old(self).model().founders - r@.len()) as u64,
                ..old(self).model()
            }),
    {
        proof {
            broadcast use lemma_count_active_bound;
        }
        let drained = self.emigration_exit.drain();
        self.founders = self.founders - (drained.len() as u64);
        drained
    }

    /// Accept a lineage arriving from another partition; this partition
    /// now accounts for it.
    pub fn push_immigrant(&mut self, lineage: Lineage)
        requires
            old(self).wf(),
            lineage_valid(old(self).model().habitat, lineage),
            old(self).model().founders < u64::MAX,
        ensures
            final(self).wf(),
            final(self).model() == (SimulationModel {
                immigration: old(self).model().immigration.push(lineage),
                founders: (old(self).model().founders + 1) as u64,
                ..old(self).model()
            }),
    {
        self.immigration_entry.push(lineage);
        self.founders = self.founders + 1;
    }
}

/// The slot contents and final generator counter after scheduling each
/// founder in turn from counter `state`.
pub open spec fn genesis_spec(lineages: Seq<Lineage>, span: u64, state: u64) -> (
    Seq<Option<ScheduledLineage>>,
    u64,
)
    decreases lineages.len(),
{
    if lineages.len() == 0 {
        (Seq::empty(), state)
    } else {
        let (pre, st) = genesis_spec(lineages.drop_last(), span, state);
        (
            pre.push(
                Some(
                    ScheduledLineage {
                        lineage: lineages.last(),
                        next_event_time: schedule_next(lineages.last().last_event_time, span, st),
                    },
                ),
            ),
            rng_next_state(st),
        )
    }
}

/// The founders of `s` that may not enter a simulation over `habitat`,
/// in their original order.
pub open spec fn invalid_founders(habitat: Habitat, s: Seq<Lineage>) -> Seq<Lineage>
    decreases s.len(),
{
    if s.len() == 0 {
        Seq::empty()
    } else {
        invalid_founders(habitat, s.drop_last()) + if !lineage_valid(habitat, s.last()) {
            seq![s.last()]
        } else {
            Seq::empty()
        }
    }
}

/// There are no invalid founders exactly when every founder is valid.
pub proof fn lemma_invalid_founders(habitat: Habitat, s: Seq<Lineage>)
    ensures
        invalid_founders(habitat, s).len() == 0 <==> forall|k: int|
            0 <= k < s.len() ==> lineage_valid(habitat, #[trigger] s[k]),
    decreases s.len(),
{
    if s.len() > 0 {
        lemma_invalid_founders(habitat, s.drop_last());
        assert(forall|k: int| 0 <= k < s.len() - 1 ==> s[k] == #[trigger] s.drop_last()[k]);
        assert(s.last() == s[s.len() - 1]);
        if invalid_founders(habitat, s).len() == 0 {
            assert(invalid_founders(habitat, s.drop_last()).len() == 0);
            assert(lineage_valid(habitat, s.last()));
            assert forall|k: int| 0 <= k < s.len() implies lineage_valid(
                habitat,
                #[trigger] s[k],
            ) by {
                if k < s.len() - 1 {
                    assert(s.drop_last()[k] == s[k]);
                    assert(lineage_valid(habitat, s.drop_last()[k]));
                }
            }
        }
        if forall|k: int| 0 <= k < s.len() ==> lineage_valid(habitat, #[trigger] s[k]) {
            assert forall|k: int| 0 <= k < s.drop_last().len() implies lineage_valid(
                habitat,
                #[trigger] s.drop_last()[k],
            ) by {
                assert(s.drop_last()[k] == s[k]);
            }
            assert(invalid_founders(habitat, s.drop_last()).len() == 0);
        }
    }
}

impl<D: DispersalSampler> Simulation<D> {
    /// Compose the cogs into a live simulation over the given founder
    /// lineages (freshly sampled at genesis, or carried over from a saved
    /// state).
    ///
    /// Malformed founders are not rejected one by one: they are collected
    /// and the whole batch is returned as the error, letting the caller
    /// decide remediation.
    pub fn new(
        habitat: Habitat,
        seed: u64,
        speciation_probability: UniformSpeciationProbability,
        dispersal_sampler: D,
        turnover_rate: UniformTurnoverRate,
        decomposition: Decomposition,
        rank: u32,
        lineages: Vec<Lineage>,
    ) -> (r: Result<Simulation<D>, Vec<Lineage>>)
        requires
            habitat.wf(),
            dispersal_sampler.kernel_wf(habitat),
            speciation_probability.wf(),
            turnover_rate.wf(),
            decomposition.wf(habitat),
            rank < decomposition.num_partitions_spec(),
        ensures
            r is Err <==> invalid_founders(habitat, lineages@).len() > 0,
            r is Ok <==> forall|k: int|
                0 <= k < lineages@.len() ==> lineage_valid(habitat, #[trigger] lineages@[k]),
            r matches Err(bad) ==> bad@ == invalid_founders(habitat, lineages@),
            r matches Ok(s) ==> {
                &&& s.wf()
                &&& s.model() == (SimulationModel {
                    habitat,
                    rng_seed: seed,
                    rng_state: genesis_spec(lineages@, turnover_rate.span_spec(), seed).1,
                    speciation_probability,
                    dispersal_sampler,
                    turnover_rate,
                    decomposition,
                    rank,
                    slots: genesis_spec(lineages@, turnover_rate.span_spec(), seed).0,
                    emigration: Seq::<MigratingLineage>::empty(),
                    immigration: Seq::<Lineage>::empty(),
                    founders: lineages@.len() as u64,
                    speciated: 0,
                    coalesced: 0,
                    last_event_time: 0,
                })
            },
    {
        proof {
            lemma_invalid_founders(habitat, lineages@);
        }
        let mut bad: Vec<Lineage> = Vec::new();
        let mut i: usize = 0;
        while i < lineages.len()
            invariant
                i <= lineages@.len(),
                habitat.wf(),
                bad@ == invalid_founders(habitat, lineages@.take(i as int)),
            decreases lineages@.len() - i,
        {
            proof {
                assert(lineages@.take(i + 1).drop_last() =~= lineages@.take(i as int));
                assert(lineages@.take(i + 1).last() == lineages@[i as int]);
            }
            let l = lineages[i];
            let habitable = l.indexed_location.location.x < habitat.get_width()
                && l.indexed_location.location.y < habitat.get_height()
                && habitat.get_habitat_at_location(&l.indexed_location.location) >= 1;
            if !(habitable && l.last_event_time < TIME_INFINITY) {
                bad.push(l);
            }
            proof {
                assert(bad@ =~= invalid_founders(habitat, lineages@.take(i + 1)));
            }
            i = i + 1;
        }
        proof {
            assert(lineages@.take(lineages@.len() as int) =~= lineages@);
        }
        if bad.len() > 0 {
            return Err(bad);
        }
        let mut rng = SimRng::from_seed(seed);
        let mut store = CoherentLineageStore::new();
        let sampler = GillespieActiveLineageSampler::new();
        let mut i: usize = 0;
        while i < lineages.len()
            invariant
                i <= lineages@.len(),
                habitat.wf(),
                turnover_rate.wf(),
                forall|k: int|
                    0 <= k < lineages@.len() ==> lineage_valid(habitat, #[trigger] lineages@[k]),
                rng.seed() == seed,
                (store.slots_seq(), rng.state()) == genesis_spec(
                    lineages@.take(i as int),
                    turnover_rate.span_spec(),
                    seed,
                ),
                count_active(store.slots_seq()) == i,
                forall|q: int|
                    0 <= q < store.slots_seq().len() ==> (#[trigger] store.slots_seq()[q] matches
                        Some(y) ==> {
                        &&& lineage_valid(habitat, y.lineage)
                        &&& y.lineage.last_event_time < y.next_event_time
                    }),
            decreases lineages@.len() - i,
        {
            proof {
                assert(lineages@.take(i + 1).drop_last() =~= lineages@.take(i as int));
                assert(lineages@.take(i + 1).last() == lineages@[i as int]);
                lemma_count_active_push(
                    store.slots_seq(),
                    ScheduledLineage {
                        lineage: lineages@[i as int],
                        next_event_time: schedule_next(
                            lineages@[i as int].last_event_time,
                            turnover_rate.span_spec(),
                            rng.state(),
                        ),
                    },
                );
            }
            let l = lineages[i];
            let scheduled = sampler.schedule_lineage(l, &turnover_rate, &mut rng);
            store.append(scheduled);
            i = i + 1;
        }
        proof {
            assert(lineages@.take(lineages@.len() as int) =~= lineages@);
        }
        let simulation = Simulation {
            habitat,
            rng,
            speciation_probability,
            dispersal_sampler,
            turnover_rate,
            lineage_store: store,
            active_lineage_sampler: sampler,
            coalescence_sampler: ConditionalCoalescenceSampler::new(),
            decomposition,
            rank,
            emigration_exit: DomainEmigrationExit::new(),
            immigration_entry: BufferedImmigrationEntry::new(),
            founders: lineages.len() as u64,
            speciated: 0,
            coalesced: 0,
            last_event_time: 0,
        };
        proof {
            assert(simulation.wf());
        }
        Ok(simulation)
    }

    /// Process up to `max_steps` events, or until no lineage is active.
    ///
    /// Returns the time of the last processed event and the number of
    /// steps taken. The new state and the appended events are exactly the
    /// `run_for_spec` trace of the old state: the engine is a
    /// deterministic function of its state, so re-running any state
    /// (e.g. one restored from a snapshot) replays the same events.
    #[verifier::rlimit(100)]
    pub fn simulate_for(&mut self, max_steps: u64, events: &mut Vec<Event>) -> (r: (u64, u64))
        requires
            old(self).wf(),
        ensures
            final(self).wf(),
            final(self).model() == run_for_spec(old(self).model(), max_steps as nat).0,
            final(events)@ == old(events)@ + run_for_spec(old(self).model(), max_steps as nat).1,
            r.1 as int == run_for_spec(old(self).model(), max_steps as nat).1.len(),
            r.0 == final(self).model().last_event_time,
    {
        let ghost m0 = self.model();
        let ghost e0 = events@;
        let mut steps: u64 = 0;
        let mut done: bool = false;
        while steps < max_steps && !done
            invariant
                self.wf(),
                steps <= max_steps,
                e0 == events@.take(e0.len() as int),
                events@.len() == e0.len() + steps,
                run_for_spec(m0, max_steps as nat).0 == run_for_spec(
                    self.model(),
                    (max_steps - steps) as nat,
                ).0,
                run_for_spec(m0, max_steps as nat).1 == events@.skip(e0.len() as int)
                    + run_for_spec(self.model(), (max_steps - steps) as nat).1,
                done ==> step_spec(self.model(), EarlyStop::Never) is Idle,
            decreases max_steps - steps, (if done {
                0int
            } else {
                1int
            }),
        {
            let ghost pre = self.model();
            let ghost pre_events = events@;
            match self.step(EarlyStop::Never) {
                Some(event) => {
                    events.push(event);
                    steps = steps + 1;
                    proof {
                        assert(events@.take(e0.len() as int) =~= e0);
                        assert(events@.skip(e0.len() as int) =~= pre_events.skip(
                            e0.len() as int,
                        ).push(event));
                        let rest = run_for_spec(self.model(), (max_steps - steps) as nat);
                        assert(run_for_spec(pre, (max_steps - (steps - 1)) as nat).1 == seq![event]
                            + rest.1);
                        assert(pre_events.skip(e0.len() as int) + (seq![event] + rest.1)
                            =~= events@.skip(e0.len() as int) + rest.1);
                    }
                },
                None => {
                    done = true;
                },
            }
        }
        proof {
            if steps < max_steps {
                lemma_run_for_idle(self.model(), (max_steps - steps) as nat);
            }
            assert(run_for_spec(self.model(), (max_steps - steps) as nat).1
                =~= Seq::<Event>::empty());
            assert(events@.skip(e0.len() as int) + Seq::<Event>::empty() =~= events@.skip(
                e0.len() as int,
            ));
            assert(e0 + events@.skip(e0.len() as int) =~= events@);
        }
        let time = self.get_last_event_time();
        (time, steps)
    }

    /// Process events while the early-stop predicate admits them. The sink
    /// receives the events in non-decreasing timestamp order, none of them
    /// beyond the bound, and afterwards no admissible event remains.
    #[verifier::rlimit(100)]
    #[verifier::spinoff_prover]
    fn simulate_bounded(&mut self, early_stop: EarlyStop, events: &mut Vec<Event>) -> (r: (
        u64,
        u64,
    ))
        requires
            old(self).wf(),
            !(early_stop is Never),
        ensures
            final(self).wf(),
            step_spec(final(self).model(), early_stop) is Idle,
            old(events)@ == final(events)@.take(old(events)@.len() as int),
            forall|k: int|
                old(events)@.len() <= k < final(events)@.len() ==> !early_stop.triggers(
                    #[trigger] final(events)@[k].time,
                ),
            crate::event::events_times_nondecreasing(final(events)@.skip(old(events)@.len() as int)),
            r.1 as int == final(events)@.len() - old(events)@.len(),
            r.0 == final(self).model().last_event_time,
            final(self).model().founders == old(self).model().founders,
            final(self).model().immigration == old(self).model().immigration,
            final(self).model().habitat == old(self).model().habitat,
            final(self).model().decomposition == old(self).model().decomposition,
            final(self).model().rank == old(self).model().rank,
            final(self).model().dispersal_sampler == old(self).model().dispersal_sampler,
            final(self).model().turnover_rate == old(self).model().turnover_rate,
            final(self).model().speciation_probability == old(self).model().speciation_probability,
            final(self).model().rng_seed == old(self).model().rng_seed,
            final(self).model() == run_until_spec(old(self).model(), early_stop).0,
            final(events)@.skip(old(events)@.len() as int) == run_until_spec(
                old(self).model(),
                early_stop,
            ).1,
    {
        let ghost m0 = self.model();
        let ghost e0 = events@;
        let start_len = events.len();
        loop
            invariant
                self.wf(),
                !(early_stop is Never),
                start_len == e0.len(),
                e0 == events@.take(e0.len() as int),
                events@.len() >= e0.len(),
                forall|k: int|
                    e0.len() <= k < events@.len() ==> !early_stop.triggers(
                        #[trigger] events@[k].time,
                    ),
                crate::event::events_times_nondecreasing(events@.skip(e0.len() as int)),
                forall|k: int, q: int|
                    e0.len() <= k < events@.len() && 0 <= q < self.model().slots.len()
                        && #[trigger] self.model().slots[q] is Some ==> #[trigger] events@[k].time
                        <= self.model().slots[q]->0.next_event_time,
                self.model().founders == m0.founders,
                self.model().immigration == m0.immigration,
                self.model().habitat == m0.habitat,
                self.model().decomposition == m0.decomposition,
                self.model().rank == m0.rank,
                self.model().dispersal_sampler == m0.dispersal_sampler,
                self.model().turnover_rate == m0.turnover_rate,
                self.model().speciation_probability == m0.speciation_probability,
                self.model().rng_seed == m0.rng_seed,
                run_until_spec(m0, early_stop).0 == run_until_spec(self.model(), early_stop).0,
                run_until_spec(m0, early_stop).1 == events@.skip(e0.len() as int)
                    + run_until_spec(self.model(), early_stop).1,
            ensures
                self.wf(),
                step_spec(self.model(), early_stop) is Idle,
                e0 == events@.take(e0.len() as int),
                events@.len() >= e0.len(),
                forall|k: int|
                    e0.len() <= k < events@.len() ==> !early_stop.triggers(
                        #[trigger] events@[k].time,
                    ),
                crate::event::events_times_nondecreasing(events@.skip(e0.len() as int)),
                self.model().founders == m0.founders,
                self.model().immigration == m0.immigration,
                self.model().habitat == m0.habitat,
                self.model().decomposition == m0.decomposition,
                self.model().rank == m0.rank,
                self.model().dispersal_sampler == m0.dispersal_sampler,
                self.model().turnover_rate == m0.turnover_rate,
                self.model().speciation_probability == m0.speciation_probability,
                self.model().rng_seed == m0.rng_seed,
                run_until_spec(m0, early_stop).0 == run_until_spec(self.model(), early_stop).0,
                run_until_spec(m0, early_stop).1 == events@.skip(e0.len() as int)
                    + run_until_spec(self.model(), early_stop).1,
                step_spec(self.model(), early_stop) is Idle,
            decreases sum_weights(early_stop, self.model().slots),
        {
            let ghost pre = self.model();
            let ghost pre_events = events@;
            proof {
                lemma_step_wf(pre, early_stop);
                lemma_step_decreases_measure(pre, early_stop);
                lemma_step_orders(pre, early_stop);
                lemma_sum_weights_nonneg(early_stop, pre.slots);
            }
            match self.step(early_stop) {
                Some(event) => {
                    events.push(event);
                    proof {
                        assert(events@.take(e0.len() as int) =~= e0);
                        assert(events@.skip(e0.len() as int) =~= pre_events.skip(
                            e0.len() as int,
                        ).push(event));
                        let popped = pop_spec(pre.slots, early_stop)->0;
                        assert(pre.slots[popped.0] is Some);
                        assert(event.time == popped.1.next_event_time);
                        assert(forall|k: int|
                            e0.len() <= k < pre_events.len() ==> #[trigger] pre_events[k].time
                                <= event.time);
                        lemma_sum_weights_nonneg(early_stop, self.model().slots);
                        assert(sum_weights(early_stop, self.model().slots) < sum_weights(
                            early_stop,
                            pre.slots,
                        ));
                        let rest = run_until_spec(self.model(), early_stop);
                        assert(run_until_spec(pre, early_stop) == (rest.0, seq![event] + rest.1));
                        assert(pre_events.skip(e0.len() as int) + (seq![event] + rest.1)
                            =~= events@.skip(e0.len() as int) + rest.1);
                    }
                },
                None => {
                    break ;
                },
            }
        }
        proof {
            assert(run_until_spec(self.model(), early_stop) == (
                self.model(),
                Seq::<Event>::empty(),
            ));
            assert(events@.skip(e0.len() as int) + Seq::<Event>::empty() =~= events@.skip(
                e0.len() as int,
            ));
        }
        let steps = (events.len() - start_len) as u64;
        let time = self.get_last_event_time();
        (time, steps)
    }

    /// Process every event with time at most `t`.
    pub fn simulate_until(&mut self, t: u64, events: &mut Vec<Event>) -> (r: (u64, u64))
        requires
            old(self).wf(),
        ensures
            final(self).wf(),
            step_spec(final(self).model(), EarlyStop::After(t)) is Idle,
            peek_spec(final(self).model().slots) matches Some(tt) ==> tt > t,
            old(events)@ == final(events)@.take(old(events)@.len() as int),
            forall|k: int|
                old(events)@.len() <= k < final(events)@.len()
                    ==> #[trigger] final(events)@[k].time <= t,
            crate::event::events_times_nondecreasing(final(events)@.skip(old(events)@.len() as int)),
            r.1 as int == final(events)@.len() - old(events)@.len(),
            r.0 == final(self).model().last_event_time,
            final(self).model().founders == old(self).model().founders,
            final(self).model().immigration == old(self).model().immigration,
            final(self).model().habitat == old(self).model().habitat,
            final(self).model().decomposition == old(self).model().decomposition,
            final(self).model().rank == old(self).model().rank,
            final(self).model().dispersal_sampler == old(self).model().dispersal_sampler,
            final(self).model().turnover_rate == old(self).model().turnover_rate,
            final(self).model().speciation_probability == old(self).model().speciation_probability,
            final(self).model().rng_seed == old(self).model().rng_seed,
            final(self).model() == run_until_spec(old(self).model(), EarlyStop::After(t)).0,
            final(events)@.skip(old(events)@.len() as int) == run_until_spec(
                old(self).model(),
                EarlyStop::After(t),
            ).1,
    {
        let r = self.simulate_bounded(EarlyStop::After(t), events);
        proof {
            reveal(step_spec);
            lemma_min_slot(self.model().slots);
        }
        r
    }

    /// Process every event with time strictly before `t` — used by
    /// non-elected partitions of the lockstep protocol, which must not
    /// touch the elected time itself.
    pub fn simulate_until_before(&mut self, t: u64, events: &mut Vec<Event>) -> (r: (u64, u64))
        requires
            old(self).wf(),
        ensures
            final(self).wf(),
            step_spec(final(self).model(), EarlyStop::AtOrAfter(t)) is Idle,
            peek_spec(final(self).model().slots) matches Some(tt) ==> tt >= t,
            old(events)@ == final(events)@.take(old(events)@.len() as int),
            forall|k: int|
                old(events)@.len() <= k < final(events)@.len()
                    ==> #[trigger] final(events)@[k].time < t,
            crate::event::events_times_nondecreasing(final(events)@.skip(old(events)@.len() as int)),
            r.1 as int == final(events)@.len() - old(events)@.len(),
            r.0 == final(self).model().last_event_time,
            final(self).model().founders == old(self).model().founders,
            final(self).model().immigration == old(self).model().immigration,
            final(self).model().habitat == old(self).model().habitat,
            final(self).model().decomposition == old(self).model().decomposition,
            final(self).model().rank == old(self).model().rank,
            final(self).model().dispersal_sampler == old(self).model().dispersal_sampler,
            final(self).model().turnover_rate == old(self).model().turnover_rate,
            final(self).model().speciation_probability == old(self).model().speciation_probability,
            final(self).model().rng_seed == old(self).model().rng_seed,
            final(self).model() == run_until_spec(old(self).model(), EarlyStop::AtOrAfter(t)).0,
            final(events)@.skip(old(events)@.len() as int) == run_until_spec(
                old(self).model(),
                EarlyStop::AtOrAfter(t),
            ).1,
    {
        let r = self.simulate_bounded(EarlyStop::AtOrAfter(t), events);
        proof {
            reveal(step_spec);
            lemma_min_slot(self.model().slots);
        }
        r
    }
}

} // verus!
