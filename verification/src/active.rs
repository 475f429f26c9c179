//! The scheduling core: which active lineage fires next, and when.

use vstd::prelude::*;
use crate::lineage::{Lineage, TIME_INFINITY};
use crate::rng::{index_of_draw, rng_next_state, rng_output, SimRng};
use crate::store::{CoherentLineageStore, ScheduledLineage};
use crate::turnover::UniformTurnoverRate;

verus! {

/// An early-stop predicate for `pop_active_lineage_and_event_time`: abort
/// before removal once the candidate time is known to exceed a
/// caller-supplied bound.
#[derive(Clone, Copy, PartialEq, Eq, Structural, Debug)]
pub enum EarlyStop {
    /// Never stop early.
    Never,
    /// Stop once the candidate time is at or after the bound.
    AtOrAfter(u64),
    /// Stop once the candidate time is after the bound.
    After(u64),
}

impl EarlyStop {
    /// Whether a candidate event time `t` triggers the early stop.
    pub open spec fn triggers(self, t: u64) -> bool {
        match self {
            EarlyStop::Never => false,
            EarlyStop::AtOrAfter(bound) => t >= bound,
            EarlyStop::After(bound) => t > bound,
        }
    }

    fn check(&self, t: u64) -> (r: bool)
        ensures
            r == self.triggers(t),
    {
        match self {
            EarlyStop::Never => false,
            EarlyStop::AtOrAfter(bound) => t >= *bound,
            EarlyStop::After(bound) => t > *bound,
        }
    }
}

/// The slot holding the earliest-scheduled active lineage of `s`: the
/// occupied slot minimizing the (next event time, slot index) pair. The
/// index tie-break realises the total event order across lineages.
pub open spec fn min_slot(s: Seq<Option<ScheduledLineage>>) -> Option<int>
    decreases s.len(),
{
    if s.len() == 0 {
        None
    } else {
        match (min_slot(s.drop_last()), s.last()) {
            (Some(j), Some(x)) => if s[j]->0.next_event_time <= x.next_event_time {
                Some(j)
            } else {
                Some(s.len() - 1)
            },
            (Some(j), None) => Some(j),
            (None, Some(x)) => Some(s.len() - 1),
            (None, None) => None,
        }
    }
}

/// `min_slot` finds an occupied slot, and an earliest one: every occupied
/// slot fires no earlier, and on time ties the found slot has the smallest
/// index. It finds nothing only if no slot is occupied.
pub proof fn lemma_min_slot(s: Seq<Option<ScheduledLineage>>)
    ensures
        min_slot(s) matches Some(j) ==> {
            &&& 0 <= j < s.len()
            &&& s[j] is Some
            &&& forall|r: int|
                0 <= r < s.len() && #[trigger] s[r] is Some ==> s[j as int]->0.next_event_time
                    < s[r]->0.next_event_time || (s[j as int]->0.next_event_time
                    == s[r]->0.next_event_time && j <= r)
        },
        min_slot(s) is None ==> forall|r: int| 0 <= r < s.len() ==> #[trigger] s[r] is None,
    decreases s.len(),
{
    if s.len() > 0 {
        let t = s.drop_last();
        lemma_min_slot(t);
        assert(forall|r: int| 0 <= r < s.len() - 1 ==> s[r] == #[trigger] t[r]);
        assert(s.last() == s[s.len() - 1]);
        match (min_slot(t), s.last()) {
            (Some(j), Some(x)) => {
                assert forall|r: int| 0 <= r < s.len() && #[trigger] s[r] is Some implies {
                    let m = min_slot(s)->0;
                    s[m]->0.next_event_time < s[r]->0.next_event_time || (s[m]->0.next_event_time
                        == s[r]->0.next_event_time && m <= r)
                } by {
                    if r < s.len() - 1 {
                        assert(t[r] is Some);
                    }
                }
            },
            (Some(j), None) => {
                assert forall|r: int| 0 <= r < s.len() && #[trigger] s[r] is Some implies {
                    let m = min_slot(s)->0;
                    s[m]->0.next_event_time < s[r]->0.next_event_time || (s[m]->0.next_event_time
                        == s[r]->0.next_event_time && m <= r)
                } by {
                    if r < s.len() - 1 {
                        assert(t[r] is Some);
                    }
                }
            },
            (None, Some(x)) => {
                assert forall|r: int| 0 <= r < s.len() && #[trigger] s[r] is Some implies {
                    let m = min_slot(s)->0;
                    s[m]->0.next_event_time < s[r]->0.next_event_time || (s[m]->0.next_event_time
                        == s[r]->0.next_event_time && m <= r)
                } by {
                    if r < s.len() - 1 {
                        assert(t[r] is Some);
                        assert(false);
                    }
                }
            },
            (None, None) => {
                assert forall|r: int| 0 <= r < s.len() implies #[trigger] s[r] is None by {
                    if r < s.len() - 1 {
                        assert(t[r] is None);
                    } else {
                        assert(s[r] == s.last());
                    }
                }
            },
        }
    }
}

/// The next scheduled time for a lineage whose last event was at `last`:
/// between 1 and `span` ticks later, drawn from the generator; a schedule
/// past representable time is pinned to `TIME_INFINITY` and never fires.
pub open spec fn schedule_next(last: u64, span: u64, rng_state: u64) -> u64 {
    let delta = 1 + index_of_draw(rng_output(rng_state), span);
    if last + delta <= u64::MAX - 1 {
        (last + delta) as u64
    } else {
        TIME_INFINITY
    }
}

/// The "coherent, many concurrent" realization of the active-lineage
/// sampler: it schedules over all occupied slots of a coherent store and
/// answers "what fires next" by the (time, reference) minimum.
#[derive(Clone, Copy, PartialEq, Eq, Structural, Debug)]
pub struct GillespieActiveLineageSampler;

impl GillespieActiveLineageSampler {
    pub fn new() -> (r: GillespieActiveLineageSampler)
        ensures
            r == GillespieActiveLineageSampler,
    {
        GillespieActiveLineageSampler
    }

    /// The slot index of the earliest-scheduled active lineage.
    fn find_min_slot(&self, store: &CoherentLineageStore) -> (r: Option<usize>)
        ensures
            r is Some <==> min_slot(store.slots_seq()) is Some,
            r matches Some(j) ==> min_slot(store.slots_seq()) == Some(j as int),
    {
        let ghost s = store.slots_seq();
        let n = store.num_slots();
        let mut best: Option<usize> = None;
        let mut i: usize = 0;
        while i < n
            invariant
                i <= n,
                n == s.len(),
                s == store.slots_seq(),
                best is Some <==> min_slot(s.take(i as int)) is Some,
                best matches Some(j) ==> min_slot(s.take(i as int)) == Some(j as int) && j < i,
            decreases n - i,
        {
            proof {
                assert(s.take(i + 1).drop_last() =~= s.take(i as int));
                assert(s.take(i + 1).last() == s[i as int]);
                assert(forall|r: int| 0 <= r < i ==> s.take(i + 1)[r] == #[trigger] s.take(
                    i as int,
                )[r]);
            }
            proof {
                lemma_min_slot(s.take(i as int));
            }
            match store.get_scheduled(i) {
                Some(x) => {
                    match best {
                        Some(j) => {
                            let y = store.get_scheduled(j).unwrap();
                            if !(y.next_event_time <= x.next_event_time) {
                                best = Some(i);
                            }
                        },
                        None => {
                            best = Some(i);
                        },
                    }
                },
                None => {},
            }
            i = i + 1;
        }
        proof {
            assert(s.take(n as int) =~= s);
        }
        best
    }

    /// Non-destructive lookahead: the time of the next event to fire, if
    /// any active lineage is scheduled before `TIME_INFINITY`.
    pub fn peek_next_time(&self, store: &CoherentLineageStore) -> (r: Option<u64>)
        ensures
            r == peek_spec(store.slots_seq()),
    {
        proof {
            lemma_min_slot(store.slots_seq());
        }
        match self.find_min_slot(store) {
            Some(j) => {
                let x = store.get_scheduled(j).unwrap();
                if x.next_event_time < TIME_INFINITY {
                    Some(x.next_event_time)
                } else {
                    None
                }
            },
            None => None,
        }
    }

    /// Remove and return the earliest-scheduled active lineage, unless no
    /// lineage is active, the earliest schedule lies beyond representable
    /// time, or the early-stop predicate aborts the pop.
    pub fn pop_active_lineage_and_event_time(
        &self,
        store: &mut CoherentLineageStore,
        early_stop: EarlyStop,
    ) -> (r: Option<(usize, ScheduledLineage)>)
        ensures
            r is None ==> *final(store) == *old(store),
            r is None <==> pop_spec(old(store).slots_seq(), early_stop) is None,
            r matches Some((j, x)) ==> {
                &&& pop_spec(old(store).slots_seq(), early_stop) == Some((j as int, x))
                &&& min_slot(old(store).slots_seq()) == Some(j as int)
                &&& old(store).slots_seq()[j as int] == Some(x)
                &&& x.next_event_time < TIME_INFINITY
                &&& !early_stop.triggers(x.next_event_time)
                &&& final(store).slots_seq() == old(store).slots_seq().update(j as int, None)
            },
    {
        proof {
            lemma_min_slot(store.slots_seq());
        }
        match self.find_min_slot(store) {
            Some(j) => {
                let x = store.get_scheduled(j).unwrap();
                if x.next_event_time >= TIME_INFINITY {
                    return None;
                }
                if early_stop.check(x.next_event_time) {
                    return None;
                }
                let x = store.extract(j);
                Some((j, x))
            },
            None => None,
        }
    }

    /// Schedule a lineage's next event: it fires between 1 and `span`
    /// ticks after its last event, where `span` is the turnover policy's
    /// span at its location.
    pub fn schedule_lineage(
        &self,
        lineage: Lineage,
        turnover_rate: &UniformTurnoverRate,
        rng: &mut SimRng,
    ) -> (x: ScheduledLineage)
        requires
            turnover_rate.wf(),
            lineage.wf(),
        ensures
            x.lineage == lineage,
            x.next_event_time == schedule_next(
                lineage.last_event_time,
                turnover_rate.span_spec(),
                old(rng).state(),
            ),
            lineage.last_event_time < x.next_event_time,
            final(rng).state() == rng_next_state(old(rng).state()),
            final(rng).seed() == old(rng).seed(),
    {
        let span = turnover_rate.get_uniform_turnover_rate();
        let delta = 1 + rng.sample_index(span);
        let next_event_time = match lineage.last_event_time.checked_add(delta) {
            Some(t) => if t <= u64::MAX - 1 {
                t
            } else {
                TIME_INFINITY
            },
            None => TIME_INFINITY,
        };
        ScheduledLineage { lineage, next_event_time }
    }
}

/// What `peek_next_time` answers on slot contents `s`.
pub open spec fn peek_spec(s: Seq<Option<ScheduledLineage>>) -> Option<u64> {
    match min_slot(s) {
        Some(j) => if s[j]->0.next_event_time < TIME_INFINITY {
            Some(s[j]->0.next_event_time)
        } else {
            None
        },
        None => None,
    }
}

/// What `pop_active_lineage_and_event_time` removes on slot contents `s`.
pub open spec fn pop_spec(s: Seq<Option<ScheduledLineage>>, early_stop: EarlyStop) -> Option<
    (int, ScheduledLineage),
> {
    match min_slot(s) {
        Some(j) => {
            let x = s[j]->0;
            if x.next_event_time < TIME_INFINITY && !early_stop.triggers(x.next_event_time) {
                Some((j, x))
            } else {
                None
            }
        },
        None => None,
    }
}

} // verus!
