//! The packaged algorithms: one-call entry points composing the cogs.

use vstd::prelude::*;
use crate::dispersal::DispersalSampler;
use crate::event::{events_sorted, max_event_time, sort_events, Event};
use crate::habitat::{ConfigError, Habitat};
use crate::independent::{
    independent_events_spec, simulate_independent_lineage, IndependentConfig,
    StepEventTimeSampler,
};
use crate::lineage::Lineage;
use crate::migration::Decomposition;
use crate::rng::SimRng;
use crate::simulation::{genesis_spec, lineage_valid, run_for_spec, Simulation, SimulationModel};
use crate::speciation::UniformSpeciationProbability;
use crate::turnover::UniformTurnoverRate;

verus! {

/// What a scenario needs to be set up: its argument bundle and its
/// construction-time error.
pub trait ScenarioParameters {
    type Arguments;
    type Error;
}

/// The coherent, event-skipping realization: a single partition drives the
/// full coalescence loop over a shared lineage store.
#[derive(Clone, Copy, PartialEq, Eq, Structural, Debug)]
pub struct SkippingGillespieSimulation;

impl ScenarioParameters for SkippingGillespieSimulation {
    type Arguments = (u32, u32, u32);

    type Error = ConfigError;
}

impl SkippingGillespieSimulation {
    /// Simulate the coalescence algorithm on `habitat` with the given
    /// dispersal kernel, decomposition and founder lineages, up to
    /// `max_steps` events, delivering every event through the sink in
    /// order.
    ///
    /// Returns the last event time and the number of steps; malformed
    /// founders are returned as a batch instead. The whole trace is the
    /// `run_for_spec` of the genesis state: a pure function of the inputs.
    pub fn simulate<D: DispersalSampler>(
        habitat: Habitat,
        dispersal_sampler: D,
        lineages: Vec<Lineage>,
        speciation_probability: UniformSpeciationProbability,
        turnover_rate: UniformTurnoverRate,
        decomposition: Decomposition,
        rank: u32,
        seed: u64,
        max_steps: u64,
        events: &mut Vec<Event>,
    ) -> (r: Result<(u64, u64), Vec<Lineage>>)
        requires
            habitat.wf(),
            dispersal_sampler.kernel_wf(habitat),
            speciation_probability.wf(),
            turnover_rate.wf(),
            decomposition.wf(habitat),
            rank < decomposition.num_partitions_spec(),
        ensures
            r is Ok <==> forall|k: int|
                0 <= k < lineages@.len() ==> lineage_valid(habitat, #[trigger] lineages@[k]),
            r matches Ok((time, steps)) ==> {
                let genesis = SimulationModel {
                    habitat,
                    rng_seed: seed,
                    rng_state: genesis_spec(lineages@, turnover_rate.span_spec(), seed).1,
                    speciation_probability,
                    dispersal_sampler,
                    turnover_rate,
                    decomposition,
                    rank,
                    slots: genesis_spec(lineages@, turnover_rate.span_spec(), seed).0,
                    emigration: Seq::empty(),
                    immigration: Seq::empty(),
                    founders: lineages@.len() as u64,
                    speciated: 0,
                    coalesced: 0,
                    last_event_time: 0,
                };
                &&& final(events)@ == old(events)@ + run_for_spec(genesis, max_steps as nat).1
                &&& steps as int == run_for_spec(genesis, max_steps as nat).1.len()
                &&& time == run_for_spec(genesis, max_steps as nat).0.last_event_time
            },
    {
        match Simulation::new(
            habitat,
            seed,
            speciation_probability,
            dispersal_sampler,
            turnover_rate,
            decomposition,
            rank,
            lineages,
        ) {
            Ok(mut simulation) => {
                let (time, steps) = simulation.simulate_for(max_steps, events);
                Ok((time, steps))
            },
            Err(bad) => Err(bad),
        }
    }
}

/// The independent realization: the semantics the data-parallel device
/// backend computes. Every lineage is simulated on its own against the
/// primed generator; the buffered, unordered per-lineage streams are
/// sorted before they reach the sink. Device kernel compilation and
/// memory layout live outside this core.
#[derive(Clone, Copy, PartialEq, Eq, Structural, Debug)]
pub struct CudaSimulation;

impl ScenarioParameters for CudaSimulation {
    type Arguments = (u32, u32, u32);

    type Error = ConfigError;
}

impl CudaSimulation {
    /// Simulate every founder lineage independently for up to
    /// `max_steps_per_lineage` events each; the sink receives, appended
    /// after its prior contents, the sorted union of the per-lineage
    /// traces — the same multiset however the lineages are split across
    /// execution units. Returns the largest appended event timestamp (zero
    /// when nothing fired) and the number of events.
    pub fn simulate<D: DispersalSampler>(
        habitat: Habitat,
        dispersal_sampler: D,
        lineages: Vec<Lineage>,
        speciation_probability: UniformSpeciationProbability,
        event_time_sampler: StepEventTimeSampler,
        seed: u64,
        max_steps_per_lineage: u64,
        events: &mut Vec<Event>,
    ) -> (r: (u64, u64))
        requires
            habitat.wf(),
            dispersal_sampler.kernel_wf(habitat),
            speciation_probability.wf(),
            event_time_sampler.wf(),
            forall|k: int|
                0 <= k < lineages@.len() ==> lineage_valid(habitat, #[trigger] lineages@[k]),
        ensures
            ({
                let c = IndependentConfig {
                    habitat,
                    seed,
                    speciation_probability,
                    dispersal_sampler,
                    event_time_sampler,
                };
                let appended = final(events)@.skip(old(events)@.len() as int);
                &&& old(events)@ == final(events)@.take(old(events)@.len() as int)
                &&& appended.to_multiset() == independent_events_spec(
                    c,
                    lineages@,
                    max_steps_per_lineage as nat,
                ).to_multiset()
                &&& events_sorted(appended)
                &&& r.1 as int == independent_events_spec(
                    c,
                    lineages@,
                    max_steps_per_lineage as nat,
                ).len()
                &&& r.0 == max_event_time(appended)
            }),
    {
        let speciation = speciation_probability;
        let ghost c = IndependentConfig {
            habitat,
            seed,
            speciation_probability: speciation,
            dispersal_sampler,
            event_time_sampler,
        };
        let mut rng = SimRng::from_seed(seed);
        let mut batch: Vec<Event> = Vec::new();
        let mut i: usize = 0;
        while i < lineages.len()
            invariant
                habitat.wf(),
                dispersal_sampler.kernel_wf(habitat),
                speciation.wf(),
                event_time_sampler.wf(),
                forall|k: int|
                    0 <= k < lineages@.len() ==> lineage_valid(habitat, #[trigger] lineages@[k]),
                i <= lineages@.len(),
                rng.seed() == seed,
                c == (IndependentConfig {
                    habitat,
                    seed,
                    speciation_probability: speciation,
                    dispersal_sampler,
                    event_time_sampler,
                }),
                batch@ == independent_events_spec(
                    c,
                    lineages@.take(i as int),
                    max_steps_per_lineage as nat,
                ),
            decreases lineages@.len() - i,
        {
            proof {
                assert(lineages@.take(i + 1).drop_last() =~= lineages@.take(i as int));
                assert(lineages@.take(i + 1).last() == lineages@[i as int]);
            }
            let lineage = lineages[i];
            let lineage_steps = simulate_independent_lineage(
                &habitat,
                &speciation,
                &dispersal_sampler,
                event_time_sampler,
                &mut rng,
                lineage,
                max_steps_per_lineage,
                &mut batch,
            );
            let _ = lineage_steps;
            i = i + 1;
        }
        proof {
            assert(lineages@.take(lineages@.len() as int) =~= lineages@);
        }
        let steps = batch.len() as u64;
        let ghost before_sort = batch@;
        sort_events(&mut batch);
        let mut time: u64 = 0;
        let mut k: usize = 0;
        while k < batch.len()
            invariant
                k <= batch@.len(),
                time == max_event_time(batch@.take(k as int)),
            decreases batch@.len() - k,
        {
            proof {
                assert(batch@.take(k + 1).drop_last() =~= batch@.take(k as int));
                assert(batch@.take(k + 1).last() == batch@[k as int]);
            }
            let t = batch[k].time;
            if t > time {
                time = t;
            }
            k = k + 1;
        }
        proof {
            assert(batch@.take(batch@.len() as int) =~= batch@);
        }
        let ghost e0 = events@;
        let ghost sorted_batch = batch@;
        let mut j: usize = 0;
        while j < batch.len()
            invariant
                j <= batch@.len(),
                batch@ == sorted_batch,
                events@ == e0 + batch@.take(j as int),
            decreases batch@.len() - j,
        {
            proof {
                assert(batch@.take(j + 1) =~= batch@.take(j as int).push(batch@[j as int]));
                assert(e0 + batch@.take(j + 1) =~= (e0 + batch@.take(j as int)).push(
                    batch@[j as int],
                ));
            }
            events.push(batch[j]);
            j = j + 1;
        }
        proof {
            assert(batch@.take(batch@.len() as int) =~= batch@);
            assert(events@.skip(e0.len() as int) =~= batch@);
            assert(events@.take(e0.len() as int) =~= e0);
        }
        (time, steps)
    }
}

} // verus!
