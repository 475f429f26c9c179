use necsim::{
    ClosedUnitFraction, CoalescenceSampler, ConditionalCoalescenceSampler, CudaSimulation,
    Decomposition, DirectMappedCache, Event, EventKind, EventReporter, Habitat,
    IndependentActiveLineageSampler, IndexedLocation, Lineage, Location, LockstepOutcome,
    SimRng, Simulation, SkippingGillespieSimulation, StepEventTimeSampler,
    UniformDispersalSampler, UniformSpeciationProbability, UniformTurnoverRate, Vec3,
};

fn founder(reference: u64, x: u32, y: u32, index: u32) -> Lineage {
    Lineage::new(reference, IndexedLocation::new(Location::new(x, y), index), 0)
}

fn always() -> ClosedUnitFraction {
    ClosedUnitFraction::new(1, 1).unwrap()
}

fn never() -> ClosedUnitFraction {
    ClosedUnitFraction::new(0, 1).unwrap()
}

fn half() -> ClosedUnitFraction {
    ClosedUnitFraction::new(1, 2).unwrap()
}

fn coherent_simulation(
    habitat: Habitat,
    speciation: ClosedUnitFraction,
    founders: Vec<Lineage>,
    seed: u64,
) -> Simulation<UniformDispersalSampler> {
    let decomposition = Decomposition::monolithic(&habitat);
    Simulation::new(
        habitat,
        seed,
        UniformSpeciationProbability::new(speciation),
        UniformDispersalSampler::new(),
        UniformTurnoverRate::new(4).unwrap(),
        decomposition,
        0,
        founders,
    )
    .ok()
    .unwrap()
}

#[test]
fn election_picks_global_minimum() {
    let candidates = vec![9, 4, 7, 4, 11];
    let (rank, time) = necsim::elect_minimum(&candidates).unwrap();
    assert_eq!(time, 4);
    assert_eq!(rank, 1);
}

#[test]
fn election_breaks_ties_by_rank() {
    let candidates = vec![5, 5, 5];
    let (rank, time) = necsim::elect_minimum(&candidates).unwrap();
    assert_eq!(time, 5);
    assert_eq!(rank, 0);
}

#[test]
fn election_of_nothing_is_none() {
    let candidates: Vec<u64> = Vec::new();
    assert!(necsim::elect_minimum(&candidates).is_none());
}

#[test]
fn vote_continue_is_logical_or() {
    assert!(!necsim::vote_continue(&vec![]));
    assert!(!necsim::vote_continue(&vec![false, false]));
    assert!(necsim::vote_continue(&vec![false, true, false]));
}

#[test]
fn rng_is_deterministic_and_primeable() {
    let mut a = SimRng::from_seed(42);
    let mut b = SimRng::from_seed(42);
    for _ in 0..10 {
        assert_eq!(a.sample_u64(), b.sample_u64());
    }
    // priming erases history: the same key yields the same draws
    a.prime_with(7, 9);
    let first = a.sample_u64();
    a.sample_u64();
    a.sample_u64();
    a.prime_with(7, 9);
    assert_eq!(a.sample_u64(), first);
    let mut c = SimRng::from_seed(43);
    c.prime_with(7, 9);
    assert_ne!(c.sample_u64(), first);
}

#[test]
fn bernoulli_extremes() {
    let mut rng = SimRng::from_seed(1);
    for _ in 0..20 {
        assert!(rng.sample_event(always()));
        assert!(!rng.sample_event(never()));
    }
}

#[test]
fn fraction_construction_is_checked() {
    assert!(ClosedUnitFraction::new(1, 0).is_err());
    assert!(ClosedUnitFraction::new(3, 2).is_err());
    assert!(ClosedUnitFraction::new(2, 3).is_ok());
}

#[test]
fn habitat_configuration_is_checked() {
    assert!(Habitat::non_spatial(0, 5, 1).is_err());
    assert!(Habitat::non_spatial(5, 5, 0).is_err());
    assert!(Habitat::in_memory(vec![1, 2, 3], 2, 2).is_err());
    let habitat = Habitat::in_memory(vec![1, 2, 3, 4], 2, 2).unwrap();
    assert_eq!(habitat.get_habitat_at_location(&Location::new(1, 1)), 4);
    assert_eq!(habitat.area(), 4);
}

#[test]
fn turnover_rate_is_checked() {
    assert!(UniformTurnoverRate::new(0).is_err());
    let turnover = UniformTurnoverRate::new(3).unwrap();
    assert_eq!(turnover.get_uniform_turnover_rate(), 3);
}

#[test]
fn malformed_founders_are_batched() {
    let habitat = Habitat::non_spatial(2, 2, 1).unwrap();
    let decomposition = Decomposition::monolithic(&habitat);
    let good = founder(0, 0, 0, 0);
    let bad_a = founder(1, 9, 9, 0);
    let bad_b = founder(2, 5, 0, 0);
    let result = Simulation::new(
        habitat,
        1,
        UniformSpeciationProbability::new(half()),
        UniformDispersalSampler::new(),
        UniformTurnoverRate::new(2).unwrap(),
        decomposition,
        0,
        vec![good, bad_a, good, bad_b],
    );
    let rejected = result.err().unwrap();
    assert_eq!(rejected, vec![bad_a, bad_b]);
}

#[test]
fn speciation_prone_lineage_speciates_once() {
    // a 1x1 habitat of capacity 2 with speciation probability one: exactly
    // one speciation event at the lineage's first event time, then nothing
    let habitat = Habitat::non_spatial(1, 1, 2).unwrap();
    let mut simulation = coherent_simulation(habitat, always(), vec![founder(0, 0, 0, 0)], 7);
    let mut events = Vec::new();
    let (_, steps) = simulation.simulate_for(10, &mut events);
    assert_eq!(steps, 1);
    assert_eq!(events.len(), 1);
    assert!(matches!(events[0].kind, EventKind::Speciation));
    assert!(events[0].time > 0);
    assert_eq!(events[0].global_reference, 0);
    assert_eq!(simulation.number_active_lineages(), 0);
    assert_eq!(simulation.get_speciated(), 1);
}

#[test]
fn co_located_lineages_coalesce_on_second_dispersal() {
    // two lineages at the same capacity-one location, and every dispersal
    // lands there again: the first dispersal must find the slot occupied
    let habitat = Habitat::non_spatial(1, 1, 1).unwrap();
    let founders = vec![founder(0, 0, 0, 0), founder(1, 0, 0, 0)];
    let mut simulation = coherent_simulation(habitat, never(), founders, 11);
    let mut events = Vec::new();
    let (_, steps) = simulation.simulate_for(1, &mut events);
    assert_eq!(steps, 1);
    match events[0].kind {
        EventKind::Dispersal { coalescence, .. } => assert!(coalescence.is_some()),
        EventKind::Speciation => panic!("expected a dispersal"),
    }
    assert_eq!(simulation.get_coalesced(), 1);
    assert_eq!(simulation.number_active_lineages(), 1);
}

#[test]
fn conservation_holds_while_stepping() {
    let habitat = Habitat::non_spatial(3, 3, 2).unwrap();
    let mut founders = Vec::new();
    for k in 0..6u64 {
        founders.push(founder(k, (k % 3) as u32, (k / 3) as u32, 0));
    }
    let mut simulation = coherent_simulation(habitat, half(), founders, 5);
    let mut events = Vec::new();
    for _ in 0..10 {
        simulation.simulate_for(3, &mut events);
        let active = simulation.number_active_lineages() as u64;
        let total = active + simulation.get_speciated() + simulation.get_coalesced();
        assert_eq!(total, simulation.get_founders());
    }
}

#[test]
fn per_lineage_times_strictly_increase() {
    let habitat = Habitat::non_spatial(2, 2, 2).unwrap();
    let founders = vec![founder(0, 0, 0, 0), founder(1, 1, 0, 0), founder(2, 0, 1, 1)];
    let mut simulation = coherent_simulation(habitat, half(), founders, 13);
    let mut events = Vec::new();
    simulation.simulate_for(60, &mut events);
    for reference in 0..3u64 {
        let times: Vec<u64> = events
            .iter()
            .filter(|e| e.global_reference == reference)
            .map(|e| e.time)
            .collect();
        for pair in times.windows(2) {
            assert!(pair[0] < pair[1]);
        }
    }
    // the sink saw non-decreasing timestamps
    for pair in events.windows(2) {
        assert!(pair[0].time <= pair[1].time);
    }
}

#[test]
fn rollback_replays_identically() {
    let habitat = Habitat::non_spatial(2, 2, 2).unwrap();
    let founders = vec![founder(0, 0, 0, 0), founder(1, 1, 1, 0)];
    let mut simulation = coherent_simulation(habitat, half(), founders, 3);
    let checkpoint = simulation.backup();
    let mut first = Vec::new();
    simulation.simulate_for(8, &mut first);
    simulation.resume(&checkpoint);
    let mut noop = Vec::new();
    let (_, zero_steps) = simulation.simulate_for(0, &mut noop);
    assert_eq!(zero_steps, 0);
    assert!(noop.is_empty());
    let mut second = Vec::new();
    simulation.simulate_for(8, &mut second);
    assert_eq!(first, second);
    // rolling back twice in a row replays the same events both times
    simulation.resume(&checkpoint);
    let mut third = Vec::new();
    simulation.simulate_for(8, &mut third);
    assert_eq!(first, third);
}

#[test]
fn independent_runs_are_partition_invariant() {
    let habitat = Habitat::non_spatial(4, 4, 1).unwrap();
    let mut all = Vec::new();
    for k in 0..8u64 {
        all.push(founder(k, (k % 4) as u32, (k / 4) as u32, 0));
    }
    let sampler = StepEventTimeSampler::new(4).unwrap();
    let speciation = UniformSpeciationProbability::new(half());
    let mut single = Vec::new();
    CudaSimulation::simulate(
        habitat.clone(),
        UniformDispersalSampler::new(),
        all.clone(),
        speciation,
        sampler,
        21,
        40,
        &mut single,
    );
    let mut left = Vec::new();
    CudaSimulation::simulate(
        habitat.clone(),
        UniformDispersalSampler::new(),
        all[..3].to_vec(),
        speciation,
        sampler,
        21,
        40,
        &mut left,
    );
    let mut right = Vec::new();
    CudaSimulation::simulate(
        habitat.clone(),
        UniformDispersalSampler::new(),
        all[3..].to_vec(),
        speciation,
        sampler,
        21,
        40,
        &mut right,
    );
    let mut merged = left;
    merged.extend(right);
    necsim::sort_events(&mut merged);
    assert!(!single.is_empty());
    assert_eq!(single, merged);
}

#[test]
fn lockstep_completes_and_conserves() {
    let habitat = Habitat::non_spatial(2, 1, 1).unwrap();
    let decomposition = Decomposition::striped(&habitat, 2).unwrap();
    let make = |rank: u32, founders: Vec<Lineage>| {
        Simulation::new(
            habitat.clone(),
            17,
            UniformSpeciationProbability::new(half()),
            UniformDispersalSampler::new(),
            UniformTurnoverRate::new(2).unwrap(),
            decomposition.clone(),
            rank,
            founders,
        )
        .ok()
        .unwrap()
    };
    let mut partitions = vec![
        make(0, vec![founder(0, 0, 0, 0)]),
        make(1, vec![founder(1, 1, 0, 0)]),
    ];
    let mut events = vec![Vec::new(), Vec::new()];
    let outcome = necsim::simulate_lockstep(&mut partitions, 10_000, 10_000, &mut events);
    match outcome {
        LockstepOutcome::Completed { steps, .. } => assert!(steps >= 2),
        LockstepOutcome::Paused => panic!("expected completion"),
    }
    let mut total = 0u64;
    let mut founders = 0u64;
    for partition in &partitions {
        total += partition.number_active_lineages() as u64 + partition.get_speciated()
            + partition.get_coalesced()
            + partition.number_queued_emigrants() as u64;
        founders += partition.get_founders();
    }
    assert_eq!(total, founders);
    assert_eq!(founders, 2);
}

#[test]
fn sorting_orders_and_preserves_events() {
    let origin = IndexedLocation::new(Location::new(0, 0), 0);
    let make = |reference: u64, time: u64| Event {
        global_reference: reference,
        time,
        origin,
        kind: EventKind::Speciation,
    };
    let mut events = vec![make(3, 9), make(1, 2), make(2, 2), make(0, 5)];
    let mut expected = events.clone();
    necsim::sort_events(&mut events);
    assert_eq!(events.len(), 4);
    for pair in events.windows(2) {
        assert!(
            pair[0].time < pair[1].time
                || (pair[0].time == pair[1].time
                    && pair[0].global_reference <= pair[1].global_reference)
        );
    }
    expected.sort_by_key(|e| (e.time, e.global_reference));
    assert_eq!(events, expected);
}

#[test]
fn cache_deduplicates_by_bucket() {
    let mut cache = DirectMappedCache::with_capacity(8);
    assert_eq!(cache.capacity(), 8);
    assert!(cache.insert(101));
    assert!(!cache.insert(101));
    assert!(cache.insert(102));
    assert!(!cache.insert(102));
    let mut empty = DirectMappedCache::with_capacity(0);
    assert!(empty.insert(101));
    assert!(empty.insert(101));
}

#[test]
fn event_reporter_counts_and_deduplicates() {
    let origin = IndexedLocation::new(Location::new(0, 0), 0);
    let far = IndexedLocation::new(Location::new(1, 0), 0);
    let speciation = Event {
        global_reference: 0,
        time: 4,
        origin,
        kind: EventKind::Speciation,
    };
    let self_coalescence = Event {
        global_reference: 1,
        time: 5,
        origin,
        kind: EventKind::Dispersal { target: origin, coalescence: Some(2) },
    };
    let out_dispersal = Event {
        global_reference: 3,
        time: 6,
        origin,
        kind: EventKind::Dispersal { target: far, coalescence: None },
    };
    let mut reporter = EventReporter::default();
    reporter.report_speciation(&speciation);
    reporter.report_speciation(&speciation);
    reporter.report_dispersal(&self_coalescence);
    reporter.report_dispersal(&self_coalescence);
    reporter.report_dispersal(&out_dispersal);
    assert_eq!(reporter.speciation, 1);
    assert_eq!(reporter.self_coalescence, 1);
    assert_eq!(reporter.out_dispersal, 1);
    assert_eq!(reporter.self_dispersal, 0);
    assert_eq!(reporter.out_coalescence, 0);
}

#[test]
fn vector_components_and_map() {
    let v = Vec3::new(1i64, 2, 3);
    assert_eq!(v.sum(), 6);
    assert_eq!(v.get_attenuation_factor(), 14);
    let doubled = v.map(|c: i64| c.saturating_mul(2));
    assert_eq!((doubled.x, doubled.y, doubled.z), (2, 4, 6));
    let shifted = v.plus(&Vec3::new(1, 1, 1)).minus(&Vec3::new(0, 1, 2));
    assert_eq!((shifted.x, shifted.y, shifted.z), (2, 2, 2));
    let scaled = v.scale(3);
    assert_eq!((scaled.x, scaled.y, scaled.z), (3, 6, 9));
}

#[test]
fn conditional_sampler_reports_occupied_slots() {
    // direct check of the coalescence sampler against a populated store
    let habitat = Habitat::non_spatial(1, 1, 1).unwrap();
    let founders = vec![founder(0, 0, 0, 0)];
    let simulation = coherent_simulation(habitat.clone(), never(), founders, 2);
    // the store inside the simulation holds one lineage at (0, 0); a fresh
    // empty store holds none
    let empty = necsim::CoherentLineageStore::new();
    let sampler = ConditionalCoalescenceSampler::new();
    let mut rng = SimRng::from_seed(9);
    let (indexed, partner) = sampler.sample_optional_coalescence_at_location(
        Location::new(0, 0),
        &habitat,
        &empty,
        &mut rng,
    );
    assert_eq!(indexed.location, Location::new(0, 0));
    assert!(partner.is_none());
    drop(simulation);
}

#[test]
fn singular_sampler_holds_one_lineage() {
    let habitat = Habitat::non_spatial(1, 1, 1).unwrap();
    let sampler_policy = StepEventTimeSampler::new(2).unwrap();
    let mut sampler = IndependentActiveLineageSampler::empty(sampler_policy);
    assert_eq!(sampler.number_active_lineages(), 0);
    assert_eq!(sampler.get_last_event_time(), 0);
    sampler.push_active_lineage(founder(0, 0, 0, 0), &habitat);
    assert_eq!(sampler.number_active_lineages(), 1);
    let mut rng = SimRng::from_seed(4);
    let (lineage, time) = sampler
        .pop_active_lineage_and_event_time(&habitat, &mut rng, necsim::EarlyStop::Never)
        .unwrap();
    assert_eq!(lineage.global_reference, 0);
    assert!(time > 0);
    assert_eq!(sampler.number_active_lineages(), 0);
}

#[test]
fn lockstep_pauses_when_out_of_rounds() {
    let habitat = Habitat::non_spatial(2, 1, 1).unwrap();
    let decomposition = Decomposition::striped(&habitat, 2).unwrap();
    let make = |rank: u32, founders: Vec<Lineage>| {
        Simulation::new(
            habitat.clone(),
            17,
            UniformSpeciationProbability::new(half()),
            UniformDispersalSampler::new(),
            UniformTurnoverRate::new(2).unwrap(),
            decomposition.clone(),
            rank,
            founders,
        )
        .ok()
        .unwrap()
    };
    let mut partitions = vec![
        make(0, vec![founder(0, 0, 0, 0)]),
        make(1, vec![founder(1, 1, 0, 0)]),
    ];
    let mut events = vec![Vec::new(), Vec::new()];
    let outcome = necsim::simulate_lockstep(&mut partitions, 0, 100, &mut events);
    assert!(matches!(outcome, LockstepOutcome::Paused));
    assert!(events[0].is_empty() && events[1].is_empty());
    // a zero probe budget can never learn a candidate either
    let outcome = necsim::simulate_lockstep(&mut partitions, 10, 0, &mut events);
    assert!(matches!(outcome, LockstepOutcome::Paused));
    assert!(events[0].is_empty() && events[1].is_empty());
}

#[test]
fn independent_runs_are_invariant_under_three_way_splits() {
    let habitat = Habitat::non_spatial(4, 4, 1).unwrap();
    let mut all = Vec::new();
    for k in 0..9u64 {
        all.push(founder(k, (k % 4) as u32, (k / 4) as u32, 0));
    }
    let sampler = StepEventTimeSampler::new(4).unwrap();
    let speciation = UniformSpeciationProbability::new(half());
    let mut single = Vec::new();
    CudaSimulation::simulate(
        habitat.clone(),
        UniformDispersalSampler::new(),
        all.clone(),
        speciation,
        sampler,
        33,
        40,
        &mut single,
    );
    let mut merged = Vec::new();
    for chunk in [&all[..2], &all[2..7], &all[7..]] {
        CudaSimulation::simulate(
            habitat.clone(),
            UniformDispersalSampler::new(),
            chunk.to_vec(),
            speciation,
            sampler,
            33,
            40,
            &mut merged,
        );
    }
    necsim::sort_events(&mut merged);
    assert!(!single.is_empty());
    assert_eq!(single, merged);
}

#[test]
fn independent_run_reports_largest_time_and_appends() {
    let habitat = Habitat::non_spatial(2, 2, 1).unwrap();
    let founders = vec![founder(0, 0, 0, 0), founder(1, 1, 1, 0)];
    let sampler = StepEventTimeSampler::new(3).unwrap();
    let marker = Event {
        global_reference: 99,
        time: 1234,
        origin: IndexedLocation::new(Location::new(0, 0), 0),
        kind: EventKind::Speciation,
    };
    let mut events = vec![marker];
    let (time, steps) = CudaSimulation::simulate(
        habitat,
        UniformDispersalSampler::new(),
        founders,
        UniformSpeciationProbability::new(half()),
        sampler,
        5,
        30,
        &mut events,
    );
    // the prior sink contents stay in place; the run's events follow
    assert_eq!(events[0], marker);
    let appended = &events[1..];
    assert_eq!(appended.len() as u64, steps);
    assert!(steps > 0);
    let max_time = appended.iter().map(|e| e.time).max().unwrap();
    assert_eq!(time, max_time);
}

#[test]
fn reporter_processes_streams_in_order() {
    let origin = IndexedLocation::new(Location::new(0, 0), 0);
    let speciation = Event {
        global_reference: 0,
        time: 4,
        origin,
        kind: EventKind::Speciation,
    };
    let dispersal = Event {
        global_reference: 1,
        time: 5,
        origin,
        kind: EventKind::Dispersal { target: origin, coalescence: None },
    };
    let mut streamed = EventReporter::default();
    streamed.report_events(&vec![speciation, speciation, dispersal]);
    let mut stepped = EventReporter::default();
    stepped.report_speciation(&speciation);
    stepped.report_speciation(&speciation);
    stepped.report_dispersal(&dispersal);
    assert_eq!(streamed, stepped);
    assert_eq!(streamed.speciation, 1);
    assert_eq!(streamed.self_dispersal, 1);
}
