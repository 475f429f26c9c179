//! A spatial coalescence (backward-time phylogeography) simulation core.
//!
//! The engine models, for a population spread over a gridded landscape, the
//! sequence of dispersal, coalescence and speciation events that explains
//! observed biodiversity. It is built from narrow, composable components
//! ("cogs"): a deterministic random-number generator, a habitat, dispersal
//! and coalescence samplers, a lineage store, an active-lineage scheduler,
//! an incremental simulation orchestrator with snapshot/rollback, and a
//! distributed lockstep protocol that lets several partitions advance one
//! logical simulation clock.
//!
//! Time is measured in discrete non-negative ticks (`u64`), with `u64::MAX`
//! standing for "beyond any representable time" — the engine's
//! `+infinity`. Probabilities are exact rational fractions. Both choices
//! keep every rule of the engine inside verified integer arithmetic;
//! continuous-time kernels (exponential inter-event times, Gaussian
//! dispersal) are pluggable collaborator policies outside this core.

mod bond;
mod landscape;
mod rng;
mod lineage;
mod event;
mod habitat;
mod dispersal;
mod turnover;
mod speciation;
mod store;
mod active;
mod coalescence;
mod migration;
mod simulation;
mod lockstep;
mod independent;
mod vec3;
mod reporter;
mod cache;
mod algorithms;

pub use bond::{ClosedUnitFraction, FractionError};
pub use landscape::{IndexedLocation, Location};
pub use rng::SimRng;
pub use lineage::Lineage;
pub use event::{events_sorted, events_times_nondecreasing, sort_events, Event, EventKind};
pub use habitat::{ConfigError, Habitat};
pub use dispersal::{DispersalSampler, UniformDispersalSampler};
pub use turnover::UniformTurnoverRate;
pub use speciation::UniformSpeciationProbability;
pub use store::{CoherentLineageStore, ScheduledLineage};
pub use active::{EarlyStop, GillespieActiveLineageSampler};
pub use coalescence::{
    CoalescenceSampler, ConditionalCoalescenceSampler, IndependentCoalescenceSampler,
    IndependentLineageStore,
};
pub use migration::{
    BufferedImmigrationEntry, Decomposition, DomainEmigrationExit, MigratingLineage,
};
pub use simulation::{Simulation, SimulationBackup, SimulationModel, StepModel};
pub use lockstep::{
    elect_minimum, simulate_lockstep, vote_continue, LockstepOutcome,
};
pub use independent::{IndependentActiveLineageSampler, StepEventTimeSampler};
pub use vec3::Vec3;
pub use reporter::EventReporter;
pub use cache::DirectMappedCache;
pub use algorithms::{CudaSimulation, ScenarioParameters, SkippingGillespieSimulation};
