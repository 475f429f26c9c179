//! The distributed lockstep protocol: partitions advancing one logical
//! simulation clock with vote-based continuation, minimum-timestamp
//! election, optimistic speculative probing with rollback, and individual
//! migration.
//!
//! The collective operations (vote-continue, min-time election, migration
//! exchange) are explicit functions over all partitions' values, so any
//! conforming transport can evaluate them; here they run in-process over a
//! vector of partitions, which realises the protocol without message
//! passing.

use vstd::prelude::*;
use crate::active::peek_spec;
use crate::dispersal::DispersalSampler;
use crate::event::Event;
use crate::lineage::TIME_INFINITY;
use crate::migration::MigratingLineage;
use crate::simulation::{
    absorb_spec, lemma_absorb_wf, lemma_run_for_frame, lemma_run_until_frame, lineage_valid,
    model_wf, run_for_spec, run_until_spec, step_spec, Simulation, SimulationModel, StepModel,
};
use crate::active::EarlyStop;
use crate::lineage::Lineage;
use crate::migration::min_emigration_time;

verus! {

/// How a lockstep run ended.
#[derive(Clone, Copy, PartialEq, Eq, Structural, Debug)]
pub enum LockstepOutcome {
    /// Every partition ran out of events: the maximum last event time and
    /// the total step count over all partitions.
    Completed { time: u64, steps: u64 },
    /// The round or probe budget ran out at a snapshot boundary; the
    /// partitions stand at their last checkpoint and can be resumed.
    Paused,
}

/// The collective continuation vote: the logical OR of every partition's
/// "I still have a pending event".
pub fn vote_continue(votes: &Vec<bool>) -> (r: bool)
    ensures
        r <==> exists|k: int| 0 <= k < votes@.len() && #[trigger] votes@[k],
{
    let mut i: usize = 0;
    while i < votes.len()
        invariant
            i <= votes@.len(),
            forall|k: int| 0 <= k < i ==> !(#[trigger] votes@[k]),
        decreases votes@.len() - i,
    {
        if votes[i] {
            return true;
        }
        i = i + 1;
    }
    false
}

/// The elected (rank, time) of a non-empty candidate list: the earliest
/// rank holding the minimum time.
pub open spec fn elect_spec(candidates: Seq<u64>) -> (int, u64)
    decreases candidates.len(),
{
    if candidates.len() <= 1 {
        (0int, candidates[0])
    } else {
        let prior = elect_spec(candidates.drop_last());
        if prior.1 <= candidates.last() {
            prior
        } else {
            (candidates.len() - 1, candidates.last())
        }
    }
}

/// The minimum-timestamp election: the first rank holding the globally
/// minimum candidate time wins, so ties break by partition rank. The
/// elected minimum equals the minimum of all candidates.
pub fn elect_minimum(candidates: &Vec<u64>) -> (r: Option<(usize, u64)>)
    ensures
        r is None <==> candidates@.len() == 0,
        r matches Some((rank, t)) ==> {
            &&& (rank as int, t) == elect_spec(candidates@)
            &&& rank < candidates@.len()
            &&& candidates@[rank as int] == t
            &&& forall|k: int| 0 <= k < candidates@.len() ==> #[trigger] candidates@[k] >= t
            &&& forall|k: int| 0 <= k < rank ==> #[trigger] candidates@[k] > t
        },
{
    if candidates.len() == 0 {
        return None;
    }
    let mut rank: usize = 0;
    let mut best: u64 = candidates[0];
    let mut i: usize = 1;
    while i < candidates.len()
        invariant
            1 <= i <= candidates@.len(),
            rank < i,
            candidates@[rank as int] == best,
            (rank as int, best) == elect_spec(candidates@.take(i as int)),
            forall|k: int| 0 <= k < i ==> #[trigger] candidates@[k] >= best,
            forall|k: int| 0 <= k < rank ==> #[trigger] candidates@[k] > best,
        decreases candidates@.len() - i,
    {
        proof {
            assert(candidates@.take(i + 1).drop_last() =~= candidates@.take(i as int));
            assert(candidates@.take(i + 1).last() == candidates@[i as int]);
        }
        if candidates[i] < best {
            rank = i;
            best = candidates[i];
        }
        i = i + 1;
    }
    proof {
        assert(candidates@.take(candidates@.len() as int) =~= candidates@);
    }
    Some((rank, best))
}

/// The sum of the per-partition accountable-lineage ledgers.
pub open spec fn sum_founders<D: DispersalSampler>(ps: Seq<Simulation<D>>) -> int
    decreases ps.len(),
{
    if ps.len() == 0 {
        0
    } else {
        sum_founders(ps.drop_last()) + ps.last().model().founders
    }
}

pub proof fn lemma_sum_founders_nonneg<D: DispersalSampler>(ps: Seq<Simulation<D>>)
    ensures
        sum_founders(ps) >= 0,
    decreases ps.len(),
{
    if ps.len() > 0 {
        lemma_sum_founders_nonneg(ps.drop_last());
    }
}

pub proof fn lemma_sum_founders_update<D: DispersalSampler>(
    ps: Seq<Simulation<D>>,
    i: int,
    s: Simulation<D>,
)
    requires
        0 <= i < ps.len(),
    ensures
        sum_founders(ps.update(i, s)) == sum_founders(ps) - ps[i].model().founders
            + s.model().founders,
    decreases ps.len(),
{
    let t = ps.update(i, s);
    if i == ps.len() - 1 {
        assert(t.drop_last() =~= ps.drop_last());
    } else {
        assert(t.drop_last() =~= ps.drop_last().update(i, s));
        assert(t.last() == ps.last());
        lemma_sum_founders_update(ps.drop_last(), i, s);
    }
}

/// The cooperating partitions of one logical simulation: each is
/// well-formed, knows its own rank, and agrees with the others on the
/// landscape and the partition count.
pub open spec fn partitions_wf<D: DispersalSampler>(ps: Seq<Simulation<D>>) -> bool {
    &&& forall|i: int| 0 <= i < ps.len() ==> (#[trigger] ps[i]).wf()
    &&& forall|i: int| 0 <= i < ps.len() ==> (#[trigger] ps[i]).model().rank == i
    &&& forall|i: int|
        0 <= i < ps.len() ==> (#[trigger] ps[i]).model().decomposition.num_partitions_spec()
            == ps.len()
    &&& forall|i: int, j: int|
        0 <= i < ps.len() && 0 <= j < ps.len() ==> (#[trigger] ps[i]).model().habitat == (
        #[trigger] ps[j]).model().habitat
}

/// The lineages among `migrants` destined for partition `i`, in transfer
/// order.
pub open spec fn routed_to(migrants: Seq<MigratingLineage>, i: int) -> Seq<Lineage>
    decreases migrants.len(),
{
    if migrants.len() == 0 {
        Seq::empty()
    } else {
        routed_to(migrants.drop_last(), i) + if migrants.last().destination as int == i {
            seq![migrants.last().lineage]
        } else {
            Seq::empty()
        }
    }
}

/// No more lineages land at a partition than were in transfer.
pub proof fn lemma_routed_to_len(migrants: Seq<MigratingLineage>, i: int)
    ensures
        routed_to(migrants, i).len() <= migrants.len(),
    decreases migrants.len(),
{
    if migrants.len() > 0 {
        lemma_routed_to_len(migrants.drop_last(), i);
    }
}

/// Whether `after` is `before` with every one of `migrants` delivered to
/// exactly its destination partition's immigration entry, in transfer
/// order, accountability moving with each lineage.
pub open spec fn delivered<D: DispersalSampler>(
    before: Seq<Simulation<D>>,
    after: Seq<Simulation<D>>,
    migrants: Seq<MigratingLineage>,
) -> bool {
    &&& after.len() == before.len()
    &&& forall|i: int|
        0 <= i < after.len() ==> (#[trigger] after[i]).model() == (SimulationModel {
            immigration: before[i].model().immigration + routed_to(migrants, i),
            founders: (before[i].model().founders + routed_to(migrants, i).len()) as u64,
            ..before[i].model()
        })
}

/// The migration barrier: deliver every drained emigrant to exactly its
/// destination partition's immigration entry, in transfer order.
/// Accountability moves with the lineage, so the global ledger is
/// conserved.
fn deliver_migrants<D: DispersalSampler>(
    partitions: &mut Vec<Simulation<D>>,
    migrants: &Vec<MigratingLineage>,
    in_flight_before: Ghost<int>,
)
    requires
        partitions_wf(old(partitions)@),
        old(partitions)@.len() >= 1,
        forall|k: int|
            0 <= k < migrants@.len()
                ==> (#[trigger] migrants@[k]).destination < old(partitions)@.len(),
        forall|k: int|
            0 <= k < migrants@.len() ==> lineage_valid(
                old(partitions)@[0].model().habitat,
                (#[trigger] migrants@[k]).lineage,
            ),
        in_flight_before@ >= migrants@.len(),
        sum_founders(old(partitions)@) + in_flight_before@ <= u64::MAX,
    ensures
        partitions_wf(final(partitions)@),
        final(partitions)@.len() == old(partitions)@.len(),
        sum_founders(final(partitions)@) == sum_founders(old(partitions)@) + migrants@.len(),
        forall|i: int, j: int|
            0 <= i < final(partitions)@.len() && 0 <= j < old(partitions)@.len()
                ==> final(partitions)@[i].model().habitat == old(partitions)@[j].model().habitat,
        delivered(old(partitions)@, final(partitions)@, migrants@),
{
    let ghost ps0 = partitions@;
    let mut k: usize = 0;
    while k < migrants.len()
        invariant
            partitions_wf(partitions@),
            partitions@.len() == ps0.len(),
            ps0.len() >= 1,
            k <= migrants@.len(),
            forall|i: int|
                0 <= i < partitions@.len() ==> (#[trigger] partitions@[i]).model() == (
                SimulationModel {
                    immigration: ps0[i].model().immigration + routed_to(
                        migrants@.take(k as int),
                        i,
                    ),
                    founders: (ps0[i].model().founders + routed_to(
                        migrants@.take(k as int),
                        i,
                    ).len()) as u64,
                    ..ps0[i].model()
                }),
            forall|i: int, j: int|
                0 <= i < partitions@.len() && 0 <= j < ps0.len() ==> (#[trigger] partitions@[i])
                    .model().habitat == (#[trigger] ps0[j]).model().habitat,
            forall|q: int|
                0 <= q < migrants@.len() ==> (#[trigger] migrants@[q]).destination < ps0.len(),
            forall|q: int|
                0 <= q < migrants@.len() ==> lineage_valid(
                    ps0[0].model().habitat,
                    (#[trigger] migrants@[q]).lineage,
                ),
            sum_founders(partitions@) == sum_founders(ps0) + k,
            in_flight_before@ >= migrants@.len(),
            sum_founders(ps0) + in_flight_before@ <= u64::MAX,
        decreases migrants@.len() - k,
    {
        let ghost pre = partitions@;
        proof {
            assert(migrants@.take(migrants@.len() as int) =~= migrants@);
        }
        let migrant = migrants[k];
        let destination = migrant.destination as usize;
        proof {
            lemma_sum_founders_nonneg(pre.drop_last());
            sum_founders_member_bound(pre, destination as int);
        }
        partitions[destination].push_immigrant(migrant.lineage);
        proof {
            lemma_sum_founders_update(pre, destination as int, partitions@[destination as int]);
            assert(migrants@.take(k + 1).drop_last() =~= migrants@.take(k as int));
            assert(migrants@.take(k + 1).last() == migrants@[k as int]);
            assert forall|i: int| 0 <= i < partitions@.len() implies (
            #[trigger] partitions@[i]).wf() && partitions@[i].model() == (SimulationModel {
                immigration: ps0[i].model().immigration + routed_to(migrants@.take(k + 1), i),
                founders: (ps0[i].model().founders + routed_to(
                    migrants@.take(k + 1),
                    i,
                ).len()) as u64,
                ..ps0[i].model()
            }) by {
                if i != destination {
                    assert(partitions@[i] == pre[i]);
                    assert(routed_to(migrants@.take(k + 1), i) =~= routed_to(
                        migrants@.take(k as int),
                        i,
                    ));
                } else {
                    sum_founders_member_bound(ps0, i);
                    lemma_routed_to_len(migrants@.take(k as int), i);
                    assert(ps0[i].model().founders + routed_to(migrants@.take(k as int), i).len()
                        + 1 <= sum_founders(ps0) + k + 1 <= u64::MAX);
                    assert(pre[i].model().founders as int == ps0[i].model().founders + routed_to(
                        migrants@.take(k as int),
                        i,
                    ).len());
                    assert(routed_to(migrants@.take(k + 1), i) =~= routed_to(
                        migrants@.take(k as int),
                        i,
                    ).push(migrant.lineage));
                    assert(ps0[i].model().immigration + routed_to(migrants@.take(k + 1), i)
                        =~= (ps0[i].model().immigration + routed_to(
                        migrants@.take(k as int),
                        i,
                    )).push(migrant.lineage));
                    assert(partitions@[i].model().founders as int == ps0[i].model().founders
                        + routed_to(migrants@.take(k + 1), i).len());
                }
            }
        }
        k = k + 1;
    }
    proof {
        assert(migrants@.take(migrants@.len() as int) =~= migrants@);
        assert(ps0 == old(partitions)@);
        assert forall|i: int| 0 <= i < partitions@.len() implies (
        #[trigger] partitions@[i]).model() == (SimulationModel {
            immigration: ps0[i].model().immigration + routed_to(migrants@, i),
            founders: (ps0[i].model().founders + routed_to(migrants@, i).len()) as u64,
            ..ps0[i].model()
        }) by {
            assert(partitions@[i].model() == (SimulationModel {
                immigration: ps0[i].model().immigration + routed_to(
                    migrants@.take(migrants@.len() as int),
                    i,
                ),
                founders: (ps0[i].model().founders + routed_to(
                    migrants@.take(migrants@.len() as int),
                    i,
                ).len()) as u64,
                ..ps0[i].model()
            }));
        }
        assert(delivered(ps0, partitions@, migrants@));
    }
}

/// Saturating accumulation for the global step counter.
fn saturating_accumulate(total: u64, add: u64) -> (r: u64)
    ensures
        r as int == if total + add <= u64::MAX {
            total + add
        } else {
            u64::MAX as int
        },
{
    match total.checked_add(add) {
        Some(t) => t,
        None => u64::MAX,
    }
}

/// What the speculative probe learns with `fuel` single steps of budget:
/// the earliest queued departure time once stepping makes the emigration
/// queue non-empty; `TIME_INFINITY` once local work exhausts with the
/// queue still empty; `None` when the budget runs out before either.
pub open spec fn probe_spec<D: DispersalSampler>(m: SimulationModel<D>, fuel: nat) -> Option<u64>
    decreases fuel,
{
    if fuel == 0 {
        None
    } else {
        match step_spec(m, EarlyStop::Never) {
            StepModel::Idle => Some(TIME_INFINITY),
            StepModel::Fired(m2, e) => {
                if m2.emigration.len() > 0 {
                    match min_emigration_time(m2.emigration) {
                        Some(t) => Some(t),
                        None => Some(TIME_INFINITY),
                    }
                } else {
                    probe_spec(m2, (fuel - 1) as nat)
                }
            },
        }
    }
}

/// The speculative probe: from the current checkpoint, step one event at a
/// time until the emigration queue becomes non-empty (the candidate is the
/// earliest queued departure time) or local work is exhausted (the
/// candidate is `TIME_INFINITY`), then roll the partition back to the
/// checkpoint. The probe exists only to learn the candidate — exactly
/// `probe_spec` of the state — and leaves the partition as it found it.
fn probe_candidate<D: DispersalSampler>(sim: &mut Simulation<D>, probe_steps: u64) -> (r: Option<
    u64,
>)
    requires
        old(sim).wf(),
    ensures
        final(sim).model() == old(sim).model(),
        final(sim).wf(),
        r == probe_spec(old(sim).model(), probe_steps as nat),
{
    let ghost m0 = sim.model();
    let checkpoint = sim.backup();
    let mut scratch: Vec<Event> = Vec::new();
    let mut candidate: Option<u64> = None;
    let mut k: u64 = 0;
    while k < probe_steps
        invariant_except_break
            candidate is None,
            probe_spec(m0, probe_steps as nat) == probe_spec(
                sim.model(),
                (probe_steps - k) as nat,
            ),
        invariant
            k <= probe_steps,
            sim.wf(),
            sim.model().habitat == m0.habitat,
            sim.model().founders == m0.founders,
            sim.model().immigration == m0.immigration,
            sim.model().decomposition == m0.decomposition,
            sim.model().rank == m0.rank,
            sim.model().dispersal_sampler == m0.dispersal_sampler,
            sim.model().turnover_rate == m0.turnover_rate,
            sim.model().speciation_probability == m0.speciation_probability,
            sim.model().rng_seed == m0.rng_seed,
            checkpoint.restored_model(sim.model()) == m0,
        ensures
            sim.wf(),
            checkpoint.restored_model(sim.model()) == m0,
            candidate == probe_spec(m0, probe_steps as nat),
        decreases probe_steps - k,
    {
        let ghost pre = sim.model();
        let (_, new_steps) = sim.simulate_for(1, &mut scratch);
        proof {
            lemma_run_for_frame(pre, 1);
            match step_spec(pre, EarlyStop::Never) {
                StepModel::Idle => {
                    assert(run_for_spec(pre, 1) == (pre, Seq::<Event>::empty()));
                },
                StepModel::Fired(m2, e) => {
                    assert(run_for_spec(m2, 0) == (m2, Seq::<Event>::empty()));
                    assert(run_for_spec(pre, 1).0 == m2);
                    assert(run_for_spec(pre, 1).1 == seq![e] + Seq::<Event>::empty());
                    assert(run_for_spec(pre, 1).1.len() == 1);
                },
            }
        }
        if new_steps == 0 {
            candidate = Some(TIME_INFINITY);
            proof {
                assert(step_spec(pre, EarlyStop::Never) is Idle);
                assert(probe_spec(pre, (probe_steps - k) as nat) == Some(TIME_INFINITY));
            }
            break ;
        }
        proof {
            assert(step_spec(pre, EarlyStop::Never) matches StepModel::Fired(m2, e) && sim.model()
                == m2);
        }
        if sim.number_queued_emigrants() > 0 {
            match sim.min_emigration_event_time() {
                Some(t) => {
                    candidate = Some(t);
                },
                None => {
                    candidate = Some(TIME_INFINITY);
                },
            }
            proof {
                assert(candidate == probe_spec(pre, (probe_steps - k) as nat));
            }
            break ;
        }
        proof {
            assert(probe_spec(pre, (probe_steps - k) as nat) == probe_spec(
                sim.model(),
                (probe_steps - (k + 1)) as nat,
            ));
        }
        k = k + 1;
    }
    sim.resume(&checkpoint);
    candidate
}

/// The mathematical states of all partitions.
pub open spec fn models_of<D: DispersalSampler>(ps: Seq<Simulation<D>>) -> Seq<
    SimulationModel<D>,
> {
    ps.map_values(|s: Simulation<D>| s.model())
}

/// Every partition after scheduling its queued immigrants.
pub open spec fn absorbed_models<D: DispersalSampler>(ms: Seq<SimulationModel<D>>) -> Seq<
    SimulationModel<D>,
> {
    ms.map_values(|m: SimulationModel<D>| absorb_spec(m))
}

/// The continuation vote: whether any partition still holds a pending
/// event.
pub open spec fn any_pending<D: DispersalSampler>(ms: Seq<SimulationModel<D>>) -> bool {
    exists|i: int| 0 <= i < ms.len() && peek_spec((#[trigger] ms[i]).slots) is Some
}

/// Each partition's probe candidate under the given step budget.
pub open spec fn probe_candidates<D: DispersalSampler>(
    ms: Seq<SimulationModel<D>>,
    fuel: nat,
) -> Seq<Option<u64>> {
    ms.map_values(|m: SimulationModel<D>| probe_spec(m, fuel))
}

/// Whether some partition's probe budget ran out before a candidate was
/// known.
pub open spec fn some_probe_unknown(candidates: Seq<Option<u64>>) -> bool {
    exists|i: int| 0 <= i < candidates.len() && (#[trigger] candidates[i]) is None
}

/// The known candidates, unwrapped.
pub open spec fn known_candidates(candidates: Seq<Option<u64>>) -> Seq<u64> {
    candidates.map_values(|c: Option<u64>| c->0)
}

/// Partition `i` advanced against the elected time `g`: the elected rank
/// through `g` inclusively, every other rank strictly before it.
pub open spec fn advance_bound(i: int, elected_rank: int, g: u64) -> EarlyStop {
    if i == elected_rank {
        EarlyStop::After(g)
    } else {
        EarlyStop::AtOrAfter(g)
    }
}

/// A partition after its emigration queue was drained for transfer.
pub open spec fn drained_model<D: DispersalSampler>(m: SimulationModel<D>) -> SimulationModel<
    D,
> {
    SimulationModel {
        emigration: Seq::empty(),
        founders: (m.founders - m.emigration.len()) as u64,
        ..m
    }
}

/// Every queued emigrant over all partitions, in partition order.
pub open spec fn all_migrants<D: DispersalSampler>(ms: Seq<SimulationModel<D>>) -> Seq<
    MigratingLineage,
>
    decreases ms.len(),
{
    if ms.len() == 0 {
        Seq::empty()
    } else {
        all_migrants(ms.drop_last()) + ms.last().emigration
    }
}

/// A partition after the migration barrier delivered it its share of the
/// in-flight lineages.
pub open spec fn delivered_model<D: DispersalSampler>(
    m: SimulationModel<D>,
    i: int,
    migrants: Seq<MigratingLineage>,
) -> SimulationModel<D> {
    SimulationModel {
        immigration: m.immigration + routed_to(migrants, i),
        founders: (m.founders + routed_to(migrants, i).len()) as u64,
        ..m
    }
}

/// Every partition advanced against the elected (rank, time).
pub open spec fn advance_states_spec<D: DispersalSampler>(
    ms: Seq<SimulationModel<D>>,
    elected_rank: int,
    g: u64,
) -> Seq<SimulationModel<D>> {
    Seq::new(ms.len(), |i: int| run_until_spec(ms[i], advance_bound(i, elected_rank, g)).0)
}

/// The events each partition's sink receives during the advance.
pub open spec fn advance_events_spec<D: DispersalSampler>(
    ms: Seq<SimulationModel<D>>,
    elected_rank: int,
    g: u64,
) -> Seq<Seq<Event>> {
    Seq::new(ms.len(), |i: int| run_until_spec(ms[i], advance_bound(i, elected_rank, g)).1)
}

/// Every partition after the migration barrier: drained, then delivered
/// its share of the in-flight lineages.
pub open spec fn exchanged_models<D: DispersalSampler>(
    advanced: Seq<SimulationModel<D>>,
    migrants: Seq<MigratingLineage>,
) -> Seq<SimulationModel<D>> {
    Seq::new(advanced.len(), |i: int| delivered_model(drained_model(advanced[i]), i, migrants))
}

/// How one protocol round transforms the partitions.
pub enum RoundModel<D> {
    /// The continuation vote failed: no partition has a pending event.
    Terminated(Seq<SimulationModel<D>>),
    /// Some probe budget ran out before its candidate was known.
    OutOfProbe(Seq<SimulationModel<D>>),
    /// A full round ran: the new states and the events each partition's
    /// sink received.
    Advanced(Seq<SimulationModel<D>>, Seq<Seq<Event>>),
}

/// One protocol round on the mathematical states: absorb immigration;
/// vote; probe each partition's next emigration candidate (and roll the
/// probe back); elect the minimum candidate with rank tie-break; advance
/// the elected partition through the elected time inclusively and every
/// other strictly before it; drain every emigration queue and deliver each
/// migrant to its destination.
#[verifier::opaque]
pub open spec fn round_spec<D: DispersalSampler>(
    ms: Seq<SimulationModel<D>>,
    probe_fuel: nat,
) -> RoundModel<D> {
    let absorbed = absorbed_models(ms);
    if !any_pending(absorbed) {
        RoundModel::Terminated(absorbed)
    } else {
        let candidates = probe_candidates(absorbed, probe_fuel);
        if some_probe_unknown(candidates) {
            RoundModel::OutOfProbe(absorbed)
        } else {
            let elected = elect_spec(known_candidates(candidates));
            let advanced_states = advance_states_spec(absorbed, elected.0, elected.1);
            let round_events = advance_events_spec(absorbed, elected.0, elected.1);
            let migrants = all_migrants(advanced_states);
            let exchanged = exchanged_models(advanced_states, migrants);
            RoundModel::Advanced(exchanged, round_events)
        }
    }
}

/// The outcome, final states, per-partition event streams and total step
/// count of a lockstep run.
pub struct LockstepTrace<D> {
    /// Whether the run ended because the continuation vote failed.
    pub completed: bool,
    pub states: Seq<SimulationModel<D>>,
    pub events: Seq<Seq<Event>>,
    /// The total number of events delivered over all partitions.
    pub total: int,
}

/// The per-partition event streams of `a` continued by those of `b`.
pub open spec fn events_then(a: Seq<Seq<Event>>, b: Seq<Seq<Event>>) -> Seq<Seq<Event>> {
    Seq::new(a.len(), |i: int| a[i] + b[i])
}

/// The sum of the per-partition stream lengths.
pub open spec fn total_events(evs: Seq<Seq<Event>>) -> int
    decreases evs.len(),
{
    if evs.len() == 0 {
        0
    } else {
        total_events(evs.drop_last()) + evs.last().len()
    }
}

/// The lockstep protocol on the mathematical states: up to `rounds`
/// protocol rounds, stopping early when the continuation vote fails
/// (completed) or a probe budget runs out (paused at the checkpoint).
#[verifier::opaque]
pub open spec fn lockstep_spec<D: DispersalSampler>(
    ms: Seq<SimulationModel<D>>,
    probe_fuel: nat,
    rounds: nat,
) -> LockstepTrace<D>
    decreases rounds,
{
    if rounds == 0 {
        LockstepTrace {
            completed: false,
            states: ms,
            events: Seq::new(ms.len(), |i: int| Seq::empty()),
            total: 0,
        }
    } else {
        match round_spec(ms, probe_fuel) {
            RoundModel::Terminated(ms2) => LockstepTrace {
                completed: true,
                states: ms2,
                events: Seq::new(ms.len(), |i: int| Seq::empty()),
                total: 0,
            },
            RoundModel::OutOfProbe(ms2) => LockstepTrace {
                completed: false,
                states: ms2,
                events: Seq::new(ms.len(), |i: int| Seq::empty()),
                total: 0,
            },
            RoundModel::Advanced(ms2, evs) => {
                let rest = lockstep_spec(ms2, probe_fuel, (rounds - 1) as nat);
                LockstepTrace {
                    completed: rest.completed,
                    states: rest.states,
                    events: events_then(evs, rest.events),
                    total: total_events(evs) + rest.total,
                }
            },
        }
    }
}

/// The largest last-event time over all partitions, zero of none.
pub open spec fn max_last_event_time<D: DispersalSampler>(ms: Seq<SimulationModel<D>>) -> u64
    decreases ms.len(),
{
    if ms.len() == 0 {
        0
    } else {
        if ms.last().last_event_time > max_last_event_time(ms.drop_last()) {
            ms.last().last_event_time
        } else {
            max_last_event_time(ms.drop_last())
        }
    }
}

/// Drain every partition's immigration queue into its active set.
fn absorb_all<D: DispersalSampler>(partitions: &mut Vec<Simulation<D>>)
    requires
        partitions_wf(old(partitions)@),
    ensures
        partitions_wf(final(partitions)@),
        final(partitions)@.len() == old(partitions)@.len(),
        sum_founders(final(partitions)@) == sum_founders(old(partitions)@),
        models_of(final(partitions)@) == absorbed_models(models_of(old(partitions)@)),
{
    let ghost ps0 = partitions@;
    let n = partitions.len();
    let mut i: usize = 0;
    while i < n
        invariant
            partitions_wf(partitions@),
            partitions@.len() == n,
            n == ps0.len(),
            sum_founders(partitions@) == sum_founders(ps0),
            i <= n,
            forall|q: int|
                0 <= q < i ==> (#[trigger] partitions@[q]).model() == absorb_spec(ps0[q].model()),
            forall|q: int| i <= q < n ==> (#[trigger] partitions@[q]) == ps0[q],
        decreases n - i,
    {
        let ghost pre = partitions@;
        proof {
            lemma_absorb_wf(pre[i as int].model());
        }
        partitions[i].absorb_immigration();
        proof {
            lemma_sum_founders_update(pre, i as int, partitions@[i as int]);
            assert forall|q: int| 0 <= q < partitions@.len() implies (
            #[trigger] partitions@[q]).wf() by {
                if q != i {
                    assert(partitions@[q] == pre[q]);
                }
            }
        }
        i = i + 1;
    }
    proof {
        assert(models_of(partitions@) =~= absorbed_models(models_of(ps0)));
    }
}

/// Each partition's continuation vote: whether it holds a pending event.
fn collect_votes<D: DispersalSampler>(partitions: &Vec<Simulation<D>>) -> (votes: Vec<bool>)
    ensures
        votes@.len() == partitions@.len(),
        forall|q: int|
            0 <= q < votes@.len() ==> #[trigger] votes@[q] == (peek_spec(
                partitions@[q].model().slots,
            ) is Some),
{
    let n = partitions.len();
    let mut votes: Vec<bool> = Vec::new();
    let mut i: usize = 0;
    while i < n
        invariant
            i <= n,
            n == partitions@.len(),
            votes@.len() == i,
            forall|q: int|
                0 <= q < i ==> #[trigger] votes@[q] == (peek_spec(
                    partitions@[q].model().slots,
                ) is Some),
        decreases n - i,
    {
        let vote = partitions[i].peek_time_of_next_event().is_some();
        votes.push(vote);
        i = i + 1;
    }
    votes
}

/// Probe every partition for its next-emigration candidate, rolling each
/// probe back. `None` when some budget ran out before its candidate was
/// known.
fn probe_all<D: DispersalSampler>(partitions: &mut Vec<Simulation<D>>, probe_steps: u64) -> (r:
    Option<Vec<u64>>)
    requires
        partitions_wf(old(partitions)@),
    ensures
        partitions_wf(final(partitions)@),
        final(partitions)@.len() == old(partitions)@.len(),
        models_of(final(partitions)@) == models_of(old(partitions)@),
        sum_founders(final(partitions)@) == sum_founders(old(partitions)@),
        r is None <==> some_probe_unknown(
            probe_candidates(models_of(old(partitions)@), probe_steps as nat),
        ),
        r matches Some(candidates) ==> candidates@ == known_candidates(
            probe_candidates(models_of(old(partitions)@), probe_steps as nat),
        ) && candidates@.len() == old(partitions)@.len(),
{
    let ghost ps0 = partitions@;
    let n = partitions.len();
    let mut candidates: Vec<u64> = Vec::new();
    let mut i: usize = 0;
    while i < n
        invariant
            partitions_wf(partitions@),
            partitions@.len() == n,
            n == ps0.len(),
            sum_founders(partitions@) == sum_founders(ps0),
            i <= n,
            candidates@.len() == i,
            ps0 == old(partitions)@,
            forall|q: int|
                0 <= q < n ==> (#[trigger] partitions@[q]).model() == ps0[q].model(),
            forall|q: int|
                0 <= q < i ==> probe_spec(ps0[q].model(), probe_steps as nat) == Some(
                    #[trigger] candidates@[q],
                ),
        decreases n - i,
    {
        let ghost pre = partitions@;
        let candidate = probe_candidate(&mut partitions[i], probe_steps);
        proof {
            lemma_sum_founders_update(pre, i as int, partitions@[i as int]);
            assert forall|q: int| 0 <= q < partitions@.len() implies (
            #[trigger] partitions@[q]).wf() by {
                if q != i {
                    assert(partitions@[q] == pre[q]);
                }
            }
        }
        match candidate {
            Some(t) => {
                candidates.push(t);
            },
            None => {
                proof {
                    assert(probe_candidates(models_of(ps0), probe_steps as nat)[i as int]
                        is None);
                    assert(models_of(partitions@) =~= models_of(ps0));
                }
                return None;
            },
        }
        i = i + 1;
    }
    proof {
        assert(models_of(partitions@) =~= models_of(ps0));
        assert forall|q: int|
            0 <= q < n implies !((#[trigger] probe_candidates(
            models_of(ps0),
            probe_steps as nat,
        )[q]) is None) by {
            assert(probe_spec(ps0[q].model(), probe_steps as nat) == Some(candidates@[q]));
        }
        assert(candidates@ =~= known_candidates(
            probe_candidates(models_of(ps0), probe_steps as nat),
        ));
    }
    Some(candidates)
}

/// Advance every partition against the elected time: the elected rank
/// through it inclusively, every other rank strictly before it. Returns
/// the saturated count of events delivered.
fn advance_all<D: DispersalSampler>(
    partitions: &mut Vec<Simulation<D>>,
    events: &mut Vec<Vec<Event>>,
    elected_rank: usize,
    g: u64,
) -> (added: u64)
    requires
        partitions_wf(old(partitions)@),
        old(events)@.len() == old(partitions)@.len(),
    ensures
        partitions_wf(final(partitions)@),
        final(partitions)@.len() == old(partitions)@.len(),
        final(events)@.len() == old(events)@.len(),
        sum_founders(final(partitions)@) == sum_founders(old(partitions)@),
        models_of(final(partitions)@) == advance_states_spec(
            models_of(old(partitions)@),
            elected_rank as int,
            g,
        ),
        forall|q: int|
            0 <= q < final(events)@.len() ==> (#[trigger] final(events)@[q])@ == old(
                events,
            )@[q]@ + advance_events_spec(models_of(old(partitions)@), elected_rank as int, g)[q],
        ({
            let total = total_events(
                advance_events_spec(models_of(old(partitions)@), elected_rank as int, g),
            );
            added as int == if total <= u64::MAX {
                total
            } else {
                u64::MAX as int
            }
        }),
{
    let ghost ps0 = partitions@;
    let ghost e0 = events@;
    let ghost round_events = advance_events_spec(models_of(ps0), elected_rank as int, g);
    let n = partitions.len();
    let mut added: u64 = 0;
    let ghost mut exact: int = 0;
    let mut i: usize = 0;
    while i < n
        invariant
            partitions_wf(partitions@),
            partitions@.len() == n,
            n == ps0.len(),
            events@.len() == e0.len(),
            e0.len() == n,
            sum_founders(partitions@) == sum_founders(ps0),
            i <= n,
            round_events == advance_events_spec(models_of(ps0), elected_rank as int, g),
            forall|q: int|
                0 <= q < i ==> (#[trigger] partitions@[q]).model() == run_until_spec(
                    ps0[q].model(),
                    advance_bound(q, elected_rank as int, g),
                ).0,
            forall|q: int| i <= q < n ==> (#[trigger] partitions@[q]) == ps0[q],
            forall|q: int|
                0 <= q < i ==> (#[trigger] events@[q])@ == e0[q]@ + round_events[q],
            forall|q: int| i <= q < n ==> (#[trigger] events@[q]) == e0[q],
            exact == total_events(round_events.take(i as int)),
            exact >= 0,
            added as int == if exact <= u64::MAX {
                exact
            } else {
                u64::MAX as int
            },
        decreases n - i,
    {
        let ghost pre = partitions@;
        let stepped = if i == elected_rank {
            partitions[i].simulate_until(g, &mut events[i])
        } else {
            partitions[i].simulate_until_before(g, &mut events[i])
        };
        added = saturating_accumulate(added, stepped.1);
        proof {
            exact = exact + round_events[i as int].len();
            assert(round_events.take(i + 1).drop_last() =~= round_events.take(i as int));
            assert(round_events.take(i + 1).last() == round_events[i as int]);
            lemma_sum_founders_update(pre, i as int, partitions@[i as int]);
            assert forall|q: int| 0 <= q < partitions@.len() implies (
            #[trigger] partitions@[q]).wf() by {
                if q != i {
                    assert(partitions@[q] == pre[q]);
                }
            }
        }
        i = i + 1;
    }
    proof {
        assert(round_events.take(round_events.len() as int) =~= round_events);
        assert(models_of(partitions@) =~= advance_states_spec(
            models_of(ps0),
            elected_rank as int,
            g,
        ));
    }
    added
}

/// Drain every partition's emigration queue, collecting the migrants in
/// partition order.
fn drain_all<D: DispersalSampler>(partitions: &mut Vec<Simulation<D>>) -> (migrants: Vec<
    MigratingLineage,
>)
    requires
        partitions_wf(old(partitions)@),
        old(partitions)@.len() >= 1,
    ensures
        partitions_wf(final(partitions)@),
        final(partitions)@.len() == old(partitions)@.len(),
        migrants@ == all_migrants(models_of(old(partitions)@)),
        sum_founders(final(partitions)@) == sum_founders(old(partitions)@) - migrants@.len(),
        forall|q: int|
            0 <= q < final(partitions)@.len() ==> (#[trigger] final(partitions)@[q]).model()
                == drained_model(old(partitions)@[q].model()),
        forall|k: int|
            0 <= k < migrants@.len() ==> (#[trigger] migrants@[k]).destination < old(
                partitions,
            )@.len() && lineage_valid(
                old(partitions)@[0].model().habitat,
                migrants@[k].lineage,
            ),
{
    let ghost ps0 = partitions@;
    let n = partitions.len();
    let mut migrants: Vec<MigratingLineage> = Vec::new();
    let mut i: usize = 0;
    while i < n
        invariant
            partitions_wf(partitions@),
            partitions@.len() == n,
            n == ps0.len(),
            n >= 1,
            i <= n,
            sum_founders(partitions@) == sum_founders(ps0) - migrants@.len(),
            migrants@ == all_migrants(models_of(ps0).take(i as int)),
            forall|q: int|
                0 <= q < i ==> (#[trigger] partitions@[q]).model() == drained_model(
                    ps0[q].model(),
                ),
            forall|q: int| i <= q < n ==> (#[trigger] partitions@[q]) == ps0[q],
            forall|k: int|
                0 <= k < migrants@.len() ==> (#[trigger] migrants@[k]).destination < n
                    && lineage_valid(ps0[0].model().habitat, migrants@[k].lineage),
        decreases n - i,
    {
        let ghost pre = partitions@;
        let ghost pre_migrants = migrants@;
        let mut drained = partitions[i].take_emigrants();
        proof {
            lemma_sum_founders_update(pre, i as int, partitions@[i as int]);
            assert forall|q: int| 0 <= q < partitions@.len() implies (
            #[trigger] partitions@[q]).wf() by {
                if q != i {
                    assert(partitions@[q] == pre[q]);
                }
            }
        }
        migrants.append(&mut drained);
        proof {
            assert(models_of(ps0).take(i + 1).drop_last() =~= models_of(ps0).take(i as int));
            assert(models_of(ps0).take(i + 1).last() == ps0[i as int].model());
            assert(migrants@ =~= all_migrants(models_of(ps0).take(i + 1)));
            assert forall|k: int|
                0 <= k < migrants@.len() implies (#[trigger] migrants@[k]).destination < n
                    && lineage_valid(ps0[0].model().habitat, migrants@[k].lineage) by {
                if k < pre_migrants.len() {
                    assert(migrants@[k] == pre_migrants[k]);
                } else {
                    let kk = k - pre_migrants.len();
                    assert(pre[i as int] == ps0[i as int]);
                    assert(pre[i as int].wf());
                    assert(migrants@[k] == pre[i as int].model().emigration[kk]);
                    assert(pre[i as int].model().emigration[kk].destination < pre[
                        i as int].model().decomposition.num_partitions_spec());
                    assert(pre[i as int].model().decomposition.num_partitions_spec()
                        == n);
                    assert(lineage_valid(
                        pre[i as int].model().habitat,
                        pre[i as int].model().emigration[kk].lineage,
                    ));
                    assert(pre[i as int].model().habitat == pre[0].model().habitat);
                    assert(pre[0].model().habitat == ps0[0].model().habitat) by {
                        if i > 0 {
                            assert(pre[0].model() == drained_model(ps0[0].model()));
                        }
                    }
                }
            }
        }
        i = i + 1;
    }
    proof {
        assert(models_of(ps0).take(n as int) =~= models_of(ps0));
    }
    migrants
}

/// No stream sums to a negative length.
proof fn lemma_total_events_nonneg(evs: Seq<Seq<Event>>)
    ensures
        total_events(evs) >= 0,
    decreases evs.len(),
{
    if evs.len() > 0 {
        lemma_total_events_nonneg(evs.drop_last());
    }
}

/// How one executed protocol round ended.
enum RoundStatus {
    Terminated,
    OutOfProbe,
    Advanced { added: u64 },
}

/// Execute one protocol round: absorb, vote, probe with rollback, elect,
/// advance, and exchange. The result is exactly `round_spec` of the
/// starting states.
#[verifier::rlimit(100)]
#[verifier::spinoff_prover]
fn lockstep_round<D: DispersalSampler>(
    partitions: &mut Vec<Simulation<D>>,
    probe_steps: u64,
    events: &mut Vec<Vec<Event>>,
) -> (r: RoundStatus)
    requires
        partitions_wf(old(partitions)@),
        old(partitions)@.len() >= 1,
        old(events)@.len() == old(partitions)@.len(),
        sum_founders(old(partitions)@) <= u64::MAX,
    ensures
        partitions_wf(final(partitions)@),
        final(partitions)@.len() == old(partitions)@.len(),
        final(events)@.len() == old(events)@.len(),
        sum_founders(final(partitions)@) == sum_founders(old(partitions)@),
        ({
            let outcome = round_spec(models_of(old(partitions)@), probe_steps as nat);
            &&& (outcome matches RoundModel::Terminated(ms2) ==> {
                &&& r is Terminated
                &&& models_of(final(partitions)@) == ms2
                &&& final(events)@ == old(events)@
                &&& forall|i: int|
                    0 <= i < ms2.len() ==> peek_spec((#[trigger] ms2[i]).slots) is None
            })
            &&& (outcome matches RoundModel::OutOfProbe(ms2) ==> {
                &&& r is OutOfProbe
                &&& models_of(final(partitions)@) == ms2
                &&& final(events)@ == old(events)@
            })
            &&& (outcome matches RoundModel::Advanced(ms2, evs) ==> {
                &&& r matches RoundStatus::Advanced { added } && added as int == (if total_events(
                    evs,
                ) <= u64::MAX {
                    total_events(evs)
                } else {
                    u64::MAX as int
                })
                &&& models_of(final(partitions)@) == ms2
                &&& evs.len() == old(events)@.len()
                &&& total_events(evs) >= 0
                &&& forall|i: int|
                    0 <= i < old(events)@.len() ==> (#[trigger] final(events)@[i])@ == old(
                        events,
                    )@[i]@ + evs[i]
            })
            &&& (r is Terminated <==> outcome is Terminated)
            &&& (r is OutOfProbe <==> outcome is OutOfProbe)
            &&& (r is Advanced <==> outcome is Advanced)
        }),
{
    proof {
        reveal(round_spec);
    }
    let ghost ms_k = models_of(partitions@);
    let n = partitions.len();
    absorb_all(partitions);
    let ghost absorbed = absorbed_models(ms_k);
    proof {
        assert(models_of(partitions@) == absorbed);
    }
    let votes = collect_votes(partitions);
    if !vote_continue(&votes) {
        proof {
            assert(!any_pending(absorbed)) by {
                if any_pending(absorbed) {
                    let w = choose|i: int|
                        0 <= i < absorbed.len() && peek_spec(
                            (#[trigger] absorbed[i]).slots,
                        ) is Some;
                    assert(votes@[w]);
                }
            }
            assert(round_spec(ms_k, probe_steps as nat) == RoundModel::<D>::Terminated(absorbed));
            assert forall|i: int| 0 <= i < absorbed.len() implies peek_spec(
                (#[trigger] absorbed[i]).slots,
            ) is None by {
                assert(!votes@[i]);
            }
        }
        return RoundStatus::Terminated;
    }
    let ghost vote_witness = choose|w: int| 0 <= w < n && #[trigger] votes@[w];
    proof {
        assert(peek_spec(absorbed[vote_witness].slots) is Some);
        assert(any_pending(absorbed));
    }
    let candidates = match probe_all(partitions, probe_steps) {
        Some(candidates) => candidates,
        None => {
            proof {
                assert(round_spec(ms_k, probe_steps as nat) == RoundModel::<D>::OutOfProbe(
                    absorbed,
                ));
            }
            return RoundStatus::OutOfProbe;
        },
    };
    let elected = elect_minimum(&candidates).unwrap();
    let (elected_rank, elected_time) = elected;
    let ghost g = elected_time;
    let ghost advanced = advance_states_spec(absorbed, elected_rank as int, g);
    let ghost round_events = advance_events_spec(absorbed, elected_rank as int, g);
    let added = advance_all(partitions, events, elected_rank, elected_time);
    proof {
        lemma_total_events_nonneg(round_events);
        assert(models_of(partitions@) == advanced);
    }
    let migrants = drain_all(partitions);
    proof {
        lemma_sum_founders_nonneg(partitions@);
    }
    deliver_migrants(partitions, &migrants, Ghost(migrants@.len() as int));
    proof {
        let exchanged = exchanged_models(advanced, all_migrants(advanced));
        assert(migrants@ == all_migrants(advanced));
        assert forall|i: int| 0 <= i < n implies (#[trigger] models_of(partitions@)[i])
            == exchanged[i] by {
            assert(partitions@[i].model() == (SimulationModel {
                immigration: drained_model(advanced[i]).immigration + routed_to(migrants@, i),
                founders: (drained_model(advanced[i]).founders + routed_to(
                    migrants@,
                    i,
                ).len()) as u64,
                ..drained_model(advanced[i])
            }));
        }
        assert(models_of(partitions@) =~= exchanged);
        assert(round_spec(ms_k, probe_steps as nat) == RoundModel::<D>::Advanced(
            exchanged,
            round_events,
        ));
    }
    RoundStatus::Advanced { added }
}

/// Run the lockstep protocol over an in-process set of partitions until no
/// partition has pending work, or until the round or probe budget runs out
/// at a snapshot boundary.
///
/// The run is exactly `lockstep_spec` of the starting states: the final
/// states are the iterated protocol rounds, the outcome says whether the
/// continuation vote failed, each partition's sink is extended by exactly
/// its rounds' advance traces, and a completed run reports the maximum
/// last-event time over all partitions and the saturated total event
/// count. The global ledger is conserved: no lineage is ever lost or
/// duplicated by the protocol.
#[verifier::rlimit(100)]
#[verifier::spinoff_prover]
pub fn simulate_lockstep<D: DispersalSampler>(
    partitions: &mut Vec<Simulation<D>>,
    max_rounds: u64,
    probe_steps: u64,
    events: &mut Vec<Vec<Event>>,
) -> (r: LockstepOutcome)
    requires
        partitions_wf(old(partitions)@),
        old(partitions)@.len() >= 1,
        old(events)@.len() == old(partitions)@.len(),
        sum_founders(old(partitions)@) <= u64::MAX,
    ensures
        partitions_wf(final(partitions)@),
        final(partitions)@.len() == old(partitions)@.len(),
        final(events)@.len() == old(events)@.len(),
        sum_founders(final(partitions)@) == sum_founders(old(partitions)@),
        ({
            let trace = lockstep_spec(
                models_of(old(partitions)@),
                probe_steps as nat,
                max_rounds as nat,
            );
            &&& models_of(final(partitions)@) == trace.states
            &&& (r is Completed) == trace.completed
            &&& forall|i: int|
                0 <= i < old(events)@.len() ==> (#[trigger] final(events)@[i])@ == old(
                    events,
                )@[i]@ + trace.events[i]
            &&& (r matches LockstepOutcome::Completed { time, steps } ==> {
                &&& time == max_last_event_time(trace.states)
                &&& steps as int == (if trace.total <= u64::MAX {
                    trace.total
                } else {
                    u64::MAX as int
                })
            })
        }),
        r matches LockstepOutcome::Completed { .. } ==> forall|i: int|
            0 <= i < final(partitions)@.len() ==> peek_spec(
                (#[trigger] final(partitions)@[i]).model().slots,
            ) is None,
{
    let ghost m0s = models_of(partitions@);
    let ghost full = lockstep_spec(m0s, probe_steps as nat, max_rounds as nat);
    let ghost e0 = events@;
    let n = partitions.len();
    let mut total_steps: u64 = 0;
    let ghost mut exact_total: int = 0;
    let mut round: u64 = 0;
    while round < max_rounds
        invariant
            partitions_wf(partitions@),
            partitions@.len() == n,
            n == old(partitions)@.len(),
            n >= 1,
            events@.len() == n,
            events@.len() == old(events)@.len(),
            e0.len() == n,
            sum_founders(partitions@) == sum_founders(old(partitions)@),
            sum_founders(old(partitions)@) <= u64::MAX,
            round <= max_rounds,
            m0s == models_of(old(partitions)@),
            e0 == old(events)@,
            full == lockstep_spec(m0s, probe_steps as nat, max_rounds as nat),
            ({
                let rest = lockstep_spec(
                    models_of(partitions@),
                    probe_steps as nat,
                    (max_rounds - round) as nat,
                );
                &&& full.states == rest.states
                &&& full.completed == rest.completed
                &&& forall|i: int|
                    0 <= i < n ==> #[trigger] full.events[i] == events@[i]@.skip(
                        e0[i]@.len() as int,
                    ) + rest.events[i]
                &&& full.total == exact_total + rest.total
            }),
            forall|i: int|
                0 <= i < n ==> #[trigger] events@[i]@.take(e0[i]@.len() as int) == e0[i]@,
            forall|i: int| 0 <= i < n ==> (#[trigger] events@[i])@.len() >= e0[i]@.len(),
            exact_total >= 0,
            total_steps as int == (if exact_total <= u64::MAX {
                exact_total
            } else {
                u64::MAX as int
            }),
        decreases max_rounds - round,
    {
        let ghost ms_k = models_of(partitions@);
        let ghost left = (max_rounds - round) as nat;
        let ghost rest_k = lockstep_spec(ms_k, probe_steps as nat, left);
        let ghost mid_events = events@;
        let status = lockstep_round(partitions, probe_steps, events);
        let ghost outcome = round_spec(ms_k, probe_steps as nat);
        match status {
            RoundStatus::Terminated => {
                proof {
                    reveal(lockstep_spec);
                    assert(rest_k.completed && rest_k.states == models_of(partitions@)
                        && rest_k.total == 0);
                    assert(forall|i: int| 0 <= i < n ==> #[trigger] rest_k.events[i]
                        =~= Seq::<Event>::empty());
                    assert forall|i: int| 0 <= i < n implies (#[trigger] events@[i])@ == e0[i]@
                        + full.events[i] by {
                        assert(events@[i]@.len() >= e0[i]@.len());
                        assert(full.events[i] == events@[i]@.skip(e0[i]@.len() as int)
                            + rest_k.events[i]);
                        assert(events@[i]@.skip(e0[i]@.len() as int) + Seq::<Event>::empty()
                            =~= events@[i]@.skip(e0[i]@.len() as int));
                        assert(events@[i]@.take(e0[i]@.len() as int) == e0[i]@);
                        assert(e0[i]@ + events@[i]@.skip(e0[i]@.len() as int) =~= events@[i]@);
                    }
                }
                let mut time: u64 = 0;
                let mut i: usize = 0;
                while i < n
                    invariant
                        partitions_wf(partitions@),
                        partitions@.len() == n,
                        i <= n,
                        time == max_last_event_time(models_of(partitions@).take(i as int)),
                    decreases n - i,
                {
                    proof {
                        assert(models_of(partitions@).take(i + 1).drop_last() =~= models_of(
                            partitions@,
                        ).take(i as int));
                        assert(models_of(partitions@).take(i + 1).last() == partitions@[
                            i as int].model());
                    }
                    let t = partitions[i].get_last_event_time();
                    if t > time {
                        time = t;
                    }
                    i = i + 1;
                }
                proof {
                    assert(models_of(partitions@).take(n as int) =~= models_of(partitions@));
                    let ms2 = outcome->Terminated_0;
                    assert(models_of(partitions@) == ms2);
                    assert forall|i: int| 0 <= i < partitions@.len() implies peek_spec(
                        (#[trigger] partitions@[i]).model().slots,
                    ) is None by {
                        assert(peek_spec(ms2[i].slots) is None);
                        assert(models_of(partitions@)[i] == partitions@[i].model());
                    }
                }
                return LockstepOutcome::Completed { time, steps: total_steps };
            },
            RoundStatus::OutOfProbe => {
                proof {
                    reveal(lockstep_spec);
                    assert(!rest_k.completed && rest_k.states == models_of(partitions@)
                        && rest_k.total == 0);
                    assert(forall|i: int| 0 <= i < n ==> #[trigger] rest_k.events[i]
                        =~= Seq::<Event>::empty());
                    assert forall|i: int| 0 <= i < n implies (#[trigger] events@[i])@ == e0[i]@
                        + full.events[i] by {
                        assert(events@[i]@.len() >= e0[i]@.len());
                        assert(full.events[i] == events@[i]@.skip(e0[i]@.len() as int)
                            + rest_k.events[i]);
                        assert(events@[i]@.skip(e0[i]@.len() as int) + Seq::<Event>::empty()
                            =~= events@[i]@.skip(e0[i]@.len() as int));
                        assert(events@[i]@.take(e0[i]@.len() as int) == e0[i]@);
                        assert(e0[i]@ + events@[i]@.skip(e0[i]@.len() as int) =~= events@[i]@);
                    }
                }
                return LockstepOutcome::Paused;
            },
            RoundStatus::Advanced { added } => {
                total_steps = saturating_accumulate(total_steps, added);
                proof {
                    reveal(lockstep_spec);
                    let evs = outcome->Advanced_1;
                    let rest_next = lockstep_spec(
                        models_of(partitions@),
                        probe_steps as nat,
                        (left - 1) as nat,
                    );
                    assert(rest_k.states == rest_next.states);
                    assert(rest_k.completed == rest_next.completed);
                    assert(rest_k.total == total_events(evs) + rest_next.total);
                    assert(rest_k.events == events_then(evs, rest_next.events));
                    exact_total = exact_total + total_events(evs);
                    assert forall|i: int| 0 <= i < n implies #[trigger] full.events[i]
                        == events@[i]@.skip(e0[i]@.len() as int) + rest_next.events[i]
                        && events@[i]@.take(e0[i]@.len() as int) == e0[i]@ && events@[i]@.len()
                        >= e0[i]@.len() by {
                        assert(mid_events[i]@.len() >= e0[i]@.len());
                        assert(full.events[i] == mid_events[i]@.skip(e0[i]@.len() as int)
                            + rest_k.events[i]);
                        assert(rest_k.events[i] == evs[i] + rest_next.events[i]);
                        assert(events@[i]@ == mid_events[i]@ + evs[i]);
                        assert(events@[i]@.len() >= e0[i]@.len());
                        assert(mid_events[i]@.take(e0[i]@.len() as int) == e0[i]@);
                        assert(events@[i]@.take(e0[i]@.len() as int) =~= mid_events[i]@.take(
                            e0[i]@.len() as int,
                        ));
                        assert(events@[i]@.skip(e0[i]@.len() as int) =~= mid_events[i]@.skip(
                            e0[i]@.len() as int,
                        ) + evs[i]);
                        assert(mid_events[i]@.skip(e0[i]@.len() as int) + (evs[i]
                            + rest_next.events[i]) =~= (mid_events[i]@.skip(
                            e0[i]@.len() as int,
                        ) + evs[i]) + rest_next.events[i]);
                    }
                    assert forall|i: int|
                        0 <= i < n implies #[trigger] events@[i]@.take(e0[i]@.len() as int)
                        == e0[i]@ by {
                        assert(full.events[i] == events@[i]@.skip(e0[i]@.len() as int)
                            + rest_next.events[i] && events@[i]@.take(e0[i]@.len() as int)
                            == e0[i]@ && events@[i]@.len() >= e0[i]@.len());
                    }
                    assert forall|i: int| 0 <= i < n implies (#[trigger] events@[i])@.len()
                        >= e0[i]@.len() by {
                        assert(full.events[i] == events@[i]@.skip(e0[i]@.len() as int)
                            + rest_next.events[i] && events@[i]@.take(e0[i]@.len() as int)
                            == e0[i]@ && events@[i]@.len() >= e0[i]@.len());
                    }
                }
                round = round + 1;
            },
        }
    }
    proof {
        reveal(lockstep_spec);
        let rest = lockstep_spec(models_of(partitions@), probe_steps as nat, 0);
        assert(!rest.completed && rest.states == models_of(partitions@) && rest.total == 0);
        assert(forall|i: int| 0 <= i < n ==> #[trigger] rest.events[i]
            =~= Seq::<Event>::empty());
        assert forall|i: int| 0 <= i < n implies (#[trigger] events@[i])@ == e0[i]@
            + full.events[i] by {
            assert(events@[i]@.len() >= e0[i]@.len());
            assert(full.events[i] == events@[i]@.skip(e0[i]@.len() as int) + rest.events[i]);
            assert(events@[i]@.skip(e0[i]@.len() as int) + Seq::<Event>::empty()
                =~= events@[i]@.skip(e0[i]@.len() as int));
            assert(events@[i]@.take(e0[i]@.len() as int) == e0[i]@);
            assert(e0[i]@ + events@[i]@.skip(e0[i]@.len() as int) =~= events@[i]@);
        }
    }
    LockstepOutcome::Paused
}

/// Each partition's ledger is bounded by the global sum.
proof fn sum_founders_member_bound<D: DispersalSampler>(ps: Seq<Simulation<D>>, i: int)
    requires
        0 <= i < ps.len(),
    ensures
        ps[i].model().founders <= sum_founders(ps),
    decreases ps.len(),
{
    lemma_sum_founders_nonneg(ps.drop_last());
    if i == ps.len() - 1 {
    } else {
        sum_founders_member_bound(ps.drop_last(), i);
    }
}

} // verus!
