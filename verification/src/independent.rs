//! The "independent" realization of the engine: each execution unit owns
//! at most one in-flight lineage, coalescence detection is disabled by
//! policy, and the primeable generator makes every draw a function of the
//! (location, time) key alone — so results do not depend on how work is
//! scheduled across units.

use vstd::prelude::*;
use vstd::seq_lib::group_to_multiset_ensures;
use vstd::multiset::{group_multiset_axioms, Multiset};
use crate::active::EarlyStop;
use crate::dispersal::DispersalSampler;
use crate::event::{Event, EventKind};
use crate::habitat::Habitat;
use crate::landscape::IndexedLocation;
use crate::lineage::{Lineage, TIME_INFINITY};
use crate::rng::{event_of_draw, rng_next_state, rng_output, rng_primed_state, SimRng};
use crate::coalescence::drawn_slot;
use crate::speciation::UniformSpeciationProbability;

verus! {

/// The priming key of an indexed location: the row-major location index in
/// the upper half, the slot index in the lower.
#[verifier::opaque]
pub open spec fn indexed_location_key(habitat: Habitat, indexed_location: IndexedLocation) -> u64 {
    (habitat.location_index(indexed_location.location) * 0x1_0000_0000
        + indexed_location.index) as u64
}

/// Compute the priming key of an indexed location.
pub fn indexed_location_key_exec(habitat: &Habitat, indexed_location: &IndexedLocation) -> (r: u64)
    requires
        habitat.wf(),
        habitat.contains(indexed_location.location),
    ensures
        r == indexed_location_key(*habitat, *indexed_location),
{
    let location_part = habitat.location_key(&indexed_location.location);
    proof {
        reveal(indexed_location_key);
        assert(location_part * 0x1_0000_0000 + (indexed_location.index as int) < 0x1_0000_0000_0000_0000)
            by (nonlinear_arith)
            requires
                location_part <= 0xFFFF_FFFF,
                indexed_location.index < 0x1_0000_0000,
        ;
    }
    location_part * 0x1_0000_0000 + (indexed_location.index as u64)
}

/// The event-time policy of the independent mode: time is divided into
/// fixed steps; within each step the generator, primed by the (location,
/// step) key, draws one candidate offset. The policy answers the earliest
/// candidate strictly after the given time — the same answer for the same
/// key, whatever was drawn before.
#[derive(Clone, Copy, PartialEq, Eq, Structural, Debug)]
pub struct StepEventTimeSampler {
    step: u64,
}

/// The candidate event time of time step `ts` for priming key `key` under
/// seed `seed`: the step start plus the primed offset draw, pinned to
/// `TIME_INFINITY` past representable time.
pub open spec fn step_candidate(seed: u64, key: u64, ts: u64, step: u64) -> int {
    (ts as int) * (step as int) + index_of_draw_at(seed, key, ts, step)
}

/// The offset drawn within time step `ts`.
pub open spec fn index_of_draw_at(seed: u64, key: u64, ts: u64, step: u64) -> u64 {
    crate::rng::index_of_draw(rng_output(rng_primed_state(seed, key, ts)), step)
}

/// The event time the policy answers: the first step candidate strictly
/// after `time`.
#[verifier::opaque]
pub open spec fn next_event_time_spec(seed: u64, key: u64, time: u64, step: u64) -> u64 {
    let ts = (time as int) / (step as int);
    let first = step_candidate(seed, key, ts as u64, step);
    if first > time && first < TIME_INFINITY {
        first as u64
    } else {
        let second = step_candidate(seed, key, (ts + 1) as u64, step);
        if second > time && second < TIME_INFINITY {
            second as u64
        } else {
            TIME_INFINITY
        }
    }
}

impl StepEventTimeSampler {
    /// A policy with the given positive step length.
    pub fn new(step: u64) -> (r: Result<StepEventTimeSampler, crate::habitat::ConfigError>)
        ensures
            step == 0 ==> r is Err,
            step >= 1 ==> (r matches Ok(s) && s.step_spec() == step && s.wf()),
    {
        if step == 0 {
            Err(crate::habitat::ConfigError::InvalidTurnoverRate)
        } else {
            Ok(StepEventTimeSampler { step })
        }
    }

    pub closed spec fn step_spec(self) -> u64 {
        self.step
    }

    pub open spec fn wf(self) -> bool {
        self.step_spec() >= 1
    }

    /// The next event time at `indexed_location` strictly after `time`.
    ///
    /// The answer depends only on the generator's seed and the (location,
    /// time) key — never on the generator's current counter — so
    /// independently scheduled units reproduce identical results.
    pub fn next_event_time_at_indexed_location_weakly_after(
        &self,
        indexed_location: &IndexedLocation,
        time: u64,
        habitat: &Habitat,
        rng: &mut SimRng,
    ) -> (r: u64)
        requires
            self.wf(),
            habitat.wf(),
            habitat.contains(indexed_location.location),
            time < TIME_INFINITY,
        ensures
            r == next_event_time_spec(
                old(rng).seed(),
                indexed_location_key(*habitat, *indexed_location),
                time,
                self.step_spec(),
            ),
            r > time,
            final(rng).seed() == old(rng).seed(),
    {
        proof {
            reveal(next_event_time_spec);
        }
        let key = indexed_location_key_exec(habitat, indexed_location);
        let ts = time / self.step;
        rng.prime_with(key, ts);
        let offset = rng.sample_index(self.step);
        let first_ok = match ts.checked_mul(self.step) {
            Some(base) => match base.checked_add(offset) {
                Some(c) if c > time && c < TIME_INFINITY => Some(c),
                _ => None,
            },
            None => None,
        };
        proof {
            assert((ts as int) * (self.step as int) <= time as int) by (nonlinear_arith)
                requires
                    ts == (time as int) / (self.step as int),
                    self.step >= 1,
                    time >= 0,
            ;
        }
        match first_ok {
            Some(c) => c,
            None => {
                rng.prime_with(key, ts + 1);
                let offset2 = rng.sample_index(self.step);
                proof {
                    assert(((ts + 1) as int) * (self.step as int) > time as int)
                        by (nonlinear_arith)
                        requires
                            ts == (time as int) / (self.step as int),
                            self.step >= 1,
                            time >= 0,
                    ;
                }
                let second_ok = match (ts + 1).checked_mul(self.step) {
                    Some(base) => base.checked_add(offset2),
                    None => None,
                };
                match second_ok {
                    Some(c) if c < TIME_INFINITY => c,
                    _ => TIME_INFINITY,
                }
            },
        }
    }
}

/// The "singular, one-at-a-time" realization of the active-lineage
/// sampler: it holds zero or one lineage, as on an execution unit that
/// owns exactly one in-flight individual.
#[derive(Clone, Copy, PartialEq, Eq, Structural, Debug)]
pub struct IndependentActiveLineageSampler {
    active_lineage: Option<Lineage>,
    event_time_sampler: StepEventTimeSampler,
}

impl IndependentActiveLineageSampler {
    /// A sampler holding no lineage yet.
    pub fn empty(event_time_sampler: StepEventTimeSampler) -> (r: IndependentActiveLineageSampler)
        ensures
            r.active_lineage_spec() is None,
            r.event_time_sampler_spec() == event_time_sampler,
    {
        IndependentActiveLineageSampler { active_lineage: None, event_time_sampler }
    }

    pub closed spec fn active_lineage_spec(self) -> Option<Lineage> {
        self.active_lineage
    }

    pub closed spec fn event_time_sampler_spec(self) -> StepEventTimeSampler {
        self.event_time_sampler
    }

    pub open spec fn wf(self, habitat: Habitat) -> bool {
        &&& self.event_time_sampler_spec().wf()
        &&& self.active_lineage_spec() matches Some(l) ==> {
            &&& habitat.is_habitable(l.indexed_location.location)
            &&& l.last_event_time < TIME_INFINITY
        }
    }

    /// How many lineages this sampler holds: zero or one.
    pub fn number_active_lineages(&self) -> (r: usize)
        ensures
            r == if self.active_lineage_spec() is Some {
                1int
            } else {
                0int
            },
    {
        if self.active_lineage.is_some() {
            1
        } else {
            0
        }
    }

    /// The time of the held lineage's last event, or zero.
    pub fn get_last_event_time(&self) -> (r: u64)
        ensures
            r == match self.active_lineage_spec() {
                Some(l) => l.last_event_time,
                None => 0u64,
            },
    {
        match &self.active_lineage {
            Some(l) => l.last_event_time,
            None => 0,
        }
    }

    /// Remove and return the held lineage with its next event time, unless
    /// none is held, its schedule lies past representable time, or the
    /// early-stop predicate aborts before removal.
    pub fn pop_active_lineage_and_event_time(
        &mut self,
        habitat: &Habitat,
        rng: &mut SimRng,
        early_stop: EarlyStop,
    ) -> (r: Option<(Lineage, u64)>)
        requires
            habitat.wf(),
            old(self).wf(*habitat),
        ensures
            final(self).event_time_sampler_spec() == old(self).event_time_sampler_spec(),
            final(rng).seed() == old(rng).seed(),
            r is None ==> final(self).active_lineage_spec() == old(self).active_lineage_spec(),
            old(self).active_lineage_spec() is None ==> *final(rng) == *old(rng),
            r is None ==> (old(self).active_lineage_spec() matches Some(l) ==> {
                let t = next_event_time_spec(
                    old(rng).seed(),
                    indexed_location_key(*habitat, l.indexed_location),
                    l.last_event_time,
                    old(self).event_time_sampler_spec().step_spec(),
                );
                t == TIME_INFINITY || early_stop.triggers(t)
            }),
            r matches Some((l, t)) ==> {
                &&& old(self).active_lineage_spec() == Some(l)
                &&& final(self).active_lineage_spec() is None
                &&& t == next_event_time_spec(
                    old(rng).seed(),
                    indexed_location_key(*habitat, l.indexed_location),
                    l.last_event_time,
                    old(self).event_time_sampler_spec().step_spec(),
                )
                &&& t > l.last_event_time
                &&& t < TIME_INFINITY
                &&& !early_stop.triggers(t)
            },
    {
        match &self.active_lineage {
            Some(lineage) => {
                let lineage = *lineage;
                let event_time = self.event_time_sampler
                    .next_event_time_at_indexed_location_weakly_after(
                    &lineage.indexed_location,
                    lineage.last_event_time,
                    habitat,
                    rng,
                );
                if event_time >= TIME_INFINITY {
                    return None;
                }
                let stop = match early_stop {
                    EarlyStop::Never => false,
                    EarlyStop::AtOrAfter(bound) => event_time >= bound,
                    EarlyStop::After(bound) => event_time > bound,
                };
                if stop {
                    return None;
                }
                self.active_lineage = None;
                Some((lineage, event_time))
            },
            None => None,
        }
    }

    /// Hold a lineage; fails the contract if one is already held.
    pub fn push_active_lineage(&mut self, lineage: Lineage, habitat: &Habitat)
        requires
            habitat.wf(),
            old(self).wf(*habitat),
            old(self).active_lineage_spec() is None,
            habitat.is_habitable(lineage.indexed_location.location),
            lineage.last_event_time < TIME_INFINITY,
        ensures
            final(self).active_lineage_spec() == Some(lineage),
            final(self).event_time_sampler_spec() == old(self).event_time_sampler_spec(),
    {
        self.active_lineage = Some(lineage);
    }
}

/// The immutable configuration of an independent run.
pub struct IndependentConfig<D> {
    pub habitat: Habitat,
    pub seed: u64,
    pub speciation_probability: UniformSpeciationProbability,
    pub dispersal_sampler: D,
    pub event_time_sampler: StepEventTimeSampler,
}

pub open spec fn independent_config_wf<D: DispersalSampler>(c: IndependentConfig<D>) -> bool {
    &&& c.habitat.wf()
    &&& c.dispersal_sampler.kernel_wf(c.habitat)
    &&& c.speciation_probability.wf()
    &&& c.event_time_sampler.wf()
}

/// One independent event for `lineage`: a pure function of the seed, the
/// policies, and the lineage alone. `None` when the lineage's schedule
/// lies past representable time.
#[verifier::opaque]
pub open spec fn independent_step_spec<D: DispersalSampler>(
    c: IndependentConfig<D>,
    lineage: Lineage,
) -> Option<(Event, Option<Lineage>)> {
    let key = indexed_location_key(c.habitat, lineage.indexed_location);
    let t = next_event_time_spec(
        c.seed,
        key,
        lineage.last_event_time,
        c.event_time_sampler.step_spec(),
    );
    if t == TIME_INFINITY {
        None
    } else {
        let primed = rng_primed_state(c.seed, key, t);
        if event_of_draw(rng_output(primed), c.speciation_probability.probability_spec()) {
            Some(
                (
                    Event {
                        global_reference: lineage.global_reference,
                        time: t,
                        origin: lineage.indexed_location,
                        kind: EventKind::Speciation,
                    },
                    None,
                ),
            )
        } else {
            let s1 = rng_next_state(primed);
            let target = c.dispersal_sampler.target_spec(lineage.indexed_location, c.habitat, s1);
            let s2 = c.dispersal_sampler.state_after_spec(lineage.indexed_location, c.habitat, s1);
            let slot_index = drawn_slot(s2, c.habitat.capacity_at(target));
            let target_indexed = IndexedLocation { location: target, index: slot_index as u32 };
            Some(
                (
                    Event {
                        global_reference: lineage.global_reference,
                        time: t,
                        origin: lineage.indexed_location,
                        kind: EventKind::Dispersal { target: target_indexed, coalescence: None },
                    },
                    Some(
                        Lineage {
                            global_reference: lineage.global_reference,
                            indexed_location: target_indexed,
                            last_event_time: t,
                        },
                    ),
                ),
            )
        }
    }
}

/// The events of one lineage simulated independently for up to `fuel`
/// steps: a pure function of the configuration and the lineage.
#[verifier::opaque]
pub open spec fn independent_run_spec<D: DispersalSampler>(
    c: IndependentConfig<D>,
    lineage: Lineage,
    fuel: nat,
) -> Seq<Event>
    decreases fuel,
{
    if fuel == 0 {
        Seq::empty()
    } else {
        match independent_step_spec(c, lineage) {
            None => Seq::empty(),
            Some((e, next)) => match next {
                None => seq![e],
                Some(l2) => seq![e] + independent_run_spec(c, l2, (fuel - 1) as nat),
            },
        }
    }
}

/// The events of a whole set of lineages, each simulated independently in
/// turn.
pub open spec fn independent_events_spec<D: DispersalSampler>(
    c: IndependentConfig<D>,
    lineages: Seq<Lineage>,
    fuel: nat,
) -> Seq<Event>
    decreases lineages.len(),
{
    if lineages.len() == 0 {
        Seq::empty()
    } else {
        independent_events_spec(c, lineages.drop_last(), fuel) + independent_run_spec(
            c,
            lineages.last(),
            fuel,
        )
    }
}

/// Determinism under partitioning: splitting the founder set between two
/// execution units and concatenating their outputs yields exactly the
/// events of the single-unit run — as sequences, and therefore as
/// multisets whatever the merge order. Each lineage's events depend on
/// the seed, the policies and the lineage alone, never on which unit runs
/// it or in which order.
#[verifier::rlimit(100)]
#[verifier::spinoff_prover]
pub proof fn lemma_independent_partition_invariance<D: DispersalSampler>(
    c: IndependentConfig<D>,
    first: Seq<Lineage>,
    second: Seq<Lineage>,
    fuel: nat,
)
    ensures
        independent_events_spec(c, first + second, fuel) == independent_events_spec(c, first, fuel)
            + independent_events_spec(c, second, fuel),
        independent_events_spec(c, first + second, fuel).to_multiset()
            == independent_events_spec(c, second, fuel).to_multiset().add(
            independent_events_spec(c, first, fuel).to_multiset(),
        ),
    decreases second.len(),
{
    broadcast use group_multiset_axioms;

    if second.len() == 0 {
        assert(first + second =~= first);
        assert(independent_events_spec(c, first, fuel) + independent_events_spec(c, second, fuel)
            =~= independent_events_spec(c, first, fuel));
    } else {
        lemma_independent_partition_invariance(c, first, second.drop_last(), fuel);
        assert((first + second).drop_last() =~= first + second.drop_last());
        assert((first + second).last() == second.last());
        assert(independent_events_spec(c, first, fuel) + independent_events_spec(c, second, fuel)
            =~= (independent_events_spec(c, first, fuel) + independent_events_spec(
            c,
            second.drop_last(),
            fuel,
        )) + independent_run_spec(c, second.last(), fuel));
    }
    lemma_to_multiset_append(
        independent_events_spec(c, first, fuel),
        independent_events_spec(c, second, fuel),
    );
}

/// A founder set dealt out to any number of execution units, in order.
pub open spec fn flattened_founders(chunks: Seq<Seq<Lineage>>) -> Seq<Lineage>
    decreases chunks.len(),
{
    if chunks.len() == 0 {
        Seq::empty()
    } else {
        flattened_founders(chunks.drop_last()) + chunks.last()
    }
}

/// The events of founder chunks, each chunk simulated on its own unit.
pub open spec fn chunked_events_spec<D: DispersalSampler>(
    c: IndependentConfig<D>,
    chunks: Seq<Seq<Lineage>>,
    fuel: nat,
) -> Seq<Event>
    decreases chunks.len(),
{
    if chunks.len() == 0 {
        Seq::empty()
    } else {
        chunked_events_spec(c, chunks.drop_last(), fuel) + independent_events_spec(
            c,
            chunks.last(),
            fuel,
        )
    }
}

/// Determinism under any partitioning: dealing the founders out to any
/// number of execution units and concatenating their outputs in unit
/// order yields exactly the single-unit trace — so the event multiset is
/// the same however the work is split or scheduled.
pub proof fn lemma_independent_scheduling_invariance<D: DispersalSampler>(
    c: IndependentConfig<D>,
    chunks: Seq<Seq<Lineage>>,
    fuel: nat,
)
    ensures
        independent_events_spec(c, flattened_founders(chunks), fuel) == chunked_events_spec(
            c,
            chunks,
            fuel,
        ),
    decreases chunks.len(),
{
    if chunks.len() == 0 {
        assert(flattened_founders(chunks) =~= Seq::<Lineage>::empty());
    } else {
        lemma_independent_scheduling_invariance(c, chunks.drop_last(), fuel);
        lemma_independent_partition_invariance(
            c,
            flattened_founders(chunks.drop_last()),
            chunks.last(),
            fuel,
        );
    }
}

/// The multiset of a concatenation is the sum of the multisets.
pub proof fn lemma_to_multiset_append(a: Seq<Event>, b: Seq<Event>)
    ensures
        (a + b).to_multiset() == b.to_multiset().add(a.to_multiset()),
    decreases b.len(),
{
    broadcast use group_to_multiset_ensures;
    broadcast use group_multiset_axioms;

    if b.len() == 0 {
        assert(a + b =~= a);
        assert(b.to_multiset() =~= Multiset::<Event>::empty());
        assert(b.to_multiset().add(a.to_multiset()) =~= a.to_multiset());
    } else {
        lemma_to_multiset_append(a, b.drop_last());
        assert(a + b =~= (a + b.drop_last()).push(b.last()));
        assert(b =~= b.drop_last().push(b.last()));
        assert((a + b.drop_last()).push(b.last()).to_multiset() =~= (a
            + b.drop_last()).to_multiset().insert(b.last()));
        assert(b.drop_last().push(b.last()).to_multiset() =~= b.drop_last().to_multiset().insert(
            b.last(),
        ));
        assert((a + b).to_multiset() =~= b.to_multiset().add(a.to_multiset()));
    }
}

/// Simulate one lineage independently for up to `max_steps` events,
/// appending its events to the sink. The result is exactly the pure
/// per-lineage trace: it does not depend on the generator's counter, on
/// other lineages, or on scheduling.
/// What the singular sampler still owes: the trace of its held lineage.
pub open spec fn remaining_run<D: DispersalSampler>(
    c: IndependentConfig<D>,
    held: Option<Lineage>,
    fuel: nat,
) -> Seq<Event> {
    match held {
        Some(l) => independent_run_spec(c, l, fuel),
        None => Seq::empty(),
    }
}

/// One independent event step: pop the held lineage, classify its event
/// from the primed stream, emit it, and hold the moved lineage again
/// unless it speciated.
/// Classify the event firing at `event_time` for `lineage`: a speciation,
/// or a dispersal to the drawn target slot. All draws come from the stream
/// primed by the (location, time) key, so the outcome is the
/// `independent_step_spec` of the configuration and the lineage alone.
fn classify_independent_event<D: DispersalSampler>(
    habitat: &Habitat,
    speciation_probability: &UniformSpeciationProbability,
    dispersal_sampler: &D,
    event_time_sampler: Ghost<StepEventTimeSampler>,
    lineage: Lineage,
    event_time: u64,
    rng: &mut SimRng,
) -> (r: (Event, Option<Lineage>))
    requires
        habitat.wf(),
        dispersal_sampler.kernel_wf(*habitat),
        speciation_probability.wf(),
        habitat.is_habitable(lineage.indexed_location.location),
        lineage.last_event_time < event_time < TIME_INFINITY,
        event_time == next_event_time_spec(
            old(rng).seed(),
            indexed_location_key(*habitat, lineage.indexed_location),
            lineage.last_event_time,
            event_time_sampler@.step_spec(),
        ),
    ensures
        final(rng).seed() == old(rng).seed(),
        independent_step_spec(
            (IndependentConfig {
                habitat: *habitat,
                seed: old(rng).seed(),
                speciation_probability: *speciation_probability,
                dispersal_sampler: *dispersal_sampler,
                event_time_sampler: event_time_sampler@,
            }),
            lineage,
        ) == Some(r),
        r.1 matches Some(moved) ==> habitat.is_habitable(moved.indexed_location.location)
            && moved.last_event_time < TIME_INFINITY,
{
    let key = indexed_location_key_exec(habitat, &lineage.indexed_location);
    rng.prime_with(key, event_time);
    let speciation = speciation_probability.get_speciation_probability_at_location(
        &lineage.indexed_location.location,
        habitat,
    );
    if rng.sample_event(speciation) {
        let event = Event {
            global_reference: lineage.global_reference,
            time: event_time,
            origin: lineage.indexed_location,
            kind: EventKind::Speciation,
        };
        proof {
            reveal(independent_step_spec);
        }
        (event, None)
    } else {
        let target = dispersal_sampler.sample_dispersal(&lineage.indexed_location, habitat, rng);
        let capacity = habitat.get_habitat_at_location(&target);
        let slot_index = rng.sample_index(capacity as u64);
        let target_indexed = IndexedLocation::new(target, slot_index as u32);
        let event = Event {
            global_reference: lineage.global_reference,
            time: event_time,
            origin: lineage.indexed_location,
            kind: EventKind::Dispersal { target: target_indexed, coalescence: None },
        };
        let moved = Lineage {
            global_reference: lineage.global_reference,
            indexed_location: target_indexed,
            last_event_time: event_time,
        };
        proof {
            reveal(independent_step_spec);
        }
        (event, Some(moved))
    }
}

/// Simulate one lineage independently for up to `max_steps` events,
/// appending its events to the sink. The appended events are exactly the
/// pure per-lineage trace: they do not depend on the generator's counter,
/// on other lineages, or on scheduling.
#[verifier::rlimit(100)]
#[verifier::spinoff_prover]
pub fn simulate_independent_lineage<D: DispersalSampler>(
    habitat: &Habitat,
    speciation_probability: &UniformSpeciationProbability,
    dispersal_sampler: &D,
    event_time_sampler: StepEventTimeSampler,
    rng: &mut SimRng,
    lineage: Lineage,
    max_steps: u64,
    events: &mut Vec<Event>,
) -> (steps: u64)
    requires
        habitat.wf(),
        dispersal_sampler.kernel_wf(*habitat),
        speciation_probability.wf(),
        event_time_sampler.wf(),
        habitat.is_habitable(lineage.indexed_location.location),
        lineage.last_event_time < TIME_INFINITY,
    ensures
        final(rng).seed() == old(rng).seed(),
        final(events)@ == old(events)@ + independent_run_spec(
            (IndependentConfig {
                habitat: *habitat,
                seed: old(rng).seed(),
                speciation_probability: *speciation_probability,
                dispersal_sampler: *dispersal_sampler,
                event_time_sampler,
            }),
            lineage,
            max_steps as nat,
        ),
        steps as int == independent_run_spec(
            (IndependentConfig {
                habitat: *habitat,
                seed: old(rng).seed(),
                speciation_probability: *speciation_probability,
                dispersal_sampler: *dispersal_sampler,
                event_time_sampler,
            }),
            lineage,
            max_steps as nat,
        ).len(),
        steps <= max_steps,
    decreases max_steps,
{
    let ghost c = IndependentConfig {
        habitat: *habitat,
        seed: rng.seed(),
        speciation_probability: *speciation_probability,
        dispersal_sampler: *dispersal_sampler,
        event_time_sampler,
    };
    if max_steps == 0 {
        proof {
            reveal(independent_run_spec);
            assert(events@ =~= events@ + independent_run_spec(c, lineage, 0));
        }
        return 0;
    }
    let mut sampler = IndependentActiveLineageSampler::empty(event_time_sampler);
    sampler.push_active_lineage(lineage, habitat);
    match sampler.pop_active_lineage_and_event_time(habitat, rng, EarlyStop::Never) {
        None => {
            proof {
                reveal(independent_run_spec);
                assert(independent_step_spec(c, lineage) is None) by {
                    reveal(independent_step_spec);
                }
                assert(events@ =~= events@ + independent_run_spec(
                    c,
                    lineage,
                    max_steps as nat,
                ));
            }
            0
        },
        Some((current, event_time)) => {
            let (event, next) = classify_independent_event(
                habitat,
                speciation_probability,
                dispersal_sampler,
                Ghost(event_time_sampler),
                current,
                event_time,
                rng,
            );
            let ghost pre_events = events@;
            events.push(event);
            match next {
                None => {
                    proof {
                        reveal(independent_run_spec);
                        assert(independent_run_spec(c, lineage, max_steps as nat) =~= seq![event]);
                        assert(events@ =~= pre_events + independent_run_spec(
                            c,
                            lineage,
                            max_steps as nat,
                        ));
                    }
                    1
                },
                Some(moved) => {
                    let ghost mid_events = events@;
                    let sub = simulate_independent_lineage(
                        habitat,
                        speciation_probability,
                        dispersal_sampler,
                        event_time_sampler,
                        rng,
                        moved,
                        max_steps - 1,
                        events,
                    );
                    proof {
                        reveal(independent_run_spec);
                        assert(independent_run_spec(c, lineage, max_steps as nat) =~= seq![event]
                            + independent_run_spec(c, moved, (max_steps - 1) as nat));
                        assert(events@ =~= pre_events + independent_run_spec(
                            c,
                            lineage,
                            max_steps as nat,
                        ));
                    }
                    1 + sub
                },
            }
        },
    }
}

} // verus!