//! Immutable event records and their total order.

use vstd::prelude::*;
use vstd::seq_lib::group_to_multiset_ensures;
use vstd::multiset::{Multiset, group_multiset_axioms};
use crate::landscape::IndexedLocation;

verus! {

/// What happened to a lineage at an event.
#[derive(Clone, Copy, PartialEq, Eq, Structural, Debug, Hash)]
pub enum EventKind {
    /// The lineage's backward history terminated by speciation.
    Speciation,
    /// The lineage moved to `target`; `coalescence` carries the global
    /// reference of the lineage it merged with, if the target slot was
    /// already occupied.
    Dispersal { target: IndexedLocation, coalescence: Option<u64> },
}

/// An immutable record of what happened to a lineage: produced once, never
/// mutated, and totally ordered by (timestamp, lineage reference).
#[derive(Clone, Copy, PartialEq, Eq, Structural, Debug, Hash)]
pub struct Event {
    /// The global reference of the lineage the event happened to.
    pub global_reference: u64,
    /// The timestamp of the event.
    pub time: u64,
    /// Where the lineage sat when the event fired.
    pub origin: IndexedLocation,
    pub kind: EventKind,
}

/// The total order on events: by timestamp, ties broken by the identity of
/// the lineage reference, so that a deterministic merge across partitions
/// is possible.
pub open spec fn event_le(a: Event, b: Event) -> bool {
    a.time < b.time || (a.time == b.time && a.global_reference <= b.global_reference)
}

/// Whether a sequence of events is sorted by `event_le`.
pub open spec fn events_sorted(s: Seq<Event>) -> bool {
    forall|i: int, j: int| 0 <= i < j < s.len() ==> event_le(s[i], s[j])
}

/// Whether the timestamps of `s` never decrease: the order a reporting
/// sink observes within one partition.
pub open spec fn events_times_nondecreasing(s: Seq<Event>) -> bool {
    forall|i: int, j: int| 0 <= i < j < s.len() ==> #[trigger] s[i].time <= #[trigger] s[j].time
}

/// The largest timestamp among `s`, or zero when `s` is empty.
pub open spec fn max_event_time(s: Seq<Event>) -> u64
    decreases s.len(),
{
    if s.len() == 0 {
        0
    } else {
        if s.last().time > max_event_time(s.drop_last()) {
            s.last().time
        } else {
            max_event_time(s.drop_last())
        }
    }
}

/// Whether every event of `a` is `event_le` every event of `b`.
pub open spec fn events_below(a: Seq<Event>, b: Seq<Event>) -> bool {
    forall|i: int, j: int|
        0 <= i < a.len() && 0 <= j < b.len() ==> event_le(#[trigger] a[i], #[trigger] b[j])
}

/// Exec comparison realising `event_le`.
fn event_le_exec(a: &Event, b: &Event) -> (r: bool)
    ensures
        r == event_le(*a, *b),
{
    a.time < b.time || (a.time == b.time && a.global_reference <= b.global_reference)
}

/// The index of a least event of the non-empty `v` under `event_le`.
fn min_event_index(v: &Vec<Event>) -> (r: usize)
    requires
        v@.len() >= 1,
    ensures
        r < v@.len(),
        forall|k: int| 0 <= k < v@.len() ==> event_le(v@[r as int], #[trigger] v@[k]),
{
    let mut best: usize = 0;
    let mut i: usize = 1;
    while i < v.len()
        invariant
            1 <= v@.len(),
            best < i <= v@.len(),
            forall|k: int| 0 <= k < i ==> event_le(v@[best as int], #[trigger] v@[k]),
        decreases v@.len() - i,
    {
        if event_le_exec(&v[i], &v[best]) {
            best = i;
        }
        i = i + 1;
    }
    best
}

/// Sort events into non-decreasing (timestamp, reference) order.
///
/// The result is a permutation of the input: it holds exactly the same
/// multiset of events. Buffered, unordered event streams pass through here
/// before they reach a reporting sink that expects timestamp order.
pub fn sort_events(v: &mut Vec<Event>)
    ensures
        events_sorted(final(v)@),
        final(v)@.to_multiset() == old(v)@.to_multiset(),
        final(v)@.len() == old(v)@.len(),
{
    broadcast use group_to_multiset_ensures;
    broadcast use group_multiset_axioms;

    let mut out: Vec<Event> = Vec::new();
    while v.len() > 0
        invariant
            events_sorted(out@),
            events_below(out@, v@),
            out@.to_multiset().add(v@.to_multiset()) == old(v)@.to_multiset(),
            out@.len() + v@.len() == old(v)@.len(),
        decreases v@.len(),
    {
        let j = min_event_index(v);
        let ghost prev = v@;
        let ghost prev_out = out@;
        let e = v.remove(j);
        out.push(e);
        proof {
            broadcast use group_to_multiset_ensures;
            broadcast use group_multiset_axioms;

            prev.remove_ensures(j as int);
            assert(prev[j as int] == e);
            assert(prev.contains(e));
            assert(prev.to_multiset().count(e) > 0);
            assert(v@ == prev.remove(j as int));
            assert(prev.remove(j as int).to_multiset() == prev.to_multiset().remove(e));
            assert(v@.to_multiset() =~= prev.to_multiset().remove(e));
            assert(out@.to_multiset() =~= prev_out.to_multiset().insert(e));
            assert forall|x: Event|
                out@.to_multiset().add(v@.to_multiset()).count(x) == prev_out.to_multiset().add(
                    prev.to_multiset(),
                ).count(x) by {}
            assert(out@.to_multiset().add(v@.to_multiset()) =~= prev_out.to_multiset().add(
                prev.to_multiset(),
            ));
            assert forall|k: int| 0 <= k < v@.len() implies event_le(e, #[trigger] v@[k]) by {
                if k < j {
                    assert(v@[k] == prev[k]);
                } else {
                    assert(v@[k] == prev[k + 1]);
                }
            }
            assert forall|i: int, k: int|
                0 <= i < out@.len() && 0 <= k < v@.len() implies event_le(
                #[trigger] out@[i],
                #[trigger] v@[k],
            ) by {
                if i < prev_out.len() {
                    if k < j {
                        assert(v@[k] == prev[k]);
                    } else {
                        assert(v@[k] == prev[k + 1]);
                    }
                } else {
                    assert(out@[i] == e);
                }
            }
            assert forall|i: int, k: int| 0 <= i < k < out@.len() implies event_le(
                #[trigger] out@[i],
                #[trigger] out@[k],
            ) by {
                if k < prev_out.len() {
                    assert(event_le(prev_out[i], prev_out[k]));
                } else {
                    assert(out@[k] == e);
                    assert(prev[j as int] == e);
                }
            }
        }
    }
    proof {
        broadcast use group_multiset_axioms;

        assert(v@.to_multiset() =~= Multiset::<Event>::empty());
        assert(out@.to_multiset().add(v@.to_multiset()) =~= out@.to_multiset());
    }
    *v = out;
}

} // verus!
