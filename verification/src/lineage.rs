//! Lineages: the individuals whose backward-time histories are simulated.

use vstd::prelude::*;
use crate::landscape::IndexedLocation;

verus! {

/// The time value standing for "beyond any representable time". A lineage
/// whose next candidate event lies there never fires.
pub const TIME_INFINITY: u64 = u64::MAX;

/// One individual's simulation state: where it currently sits, when its
/// last event was processed, and its globally unique reference.
///
/// A lineage is created at simulation genesis or by resuming a saved state,
/// is mutated exactly once per event, and leaves the active set forever
/// when it coalesces or speciates.
#[derive(Clone, Copy, PartialEq, Eq, Structural, Debug, Hash)]
pub struct Lineage {
    /// Globally unique, copyable handle identifying this lineage.
    pub global_reference: u64,
    /// The current position, including the slot index within its location.
    pub indexed_location: IndexedLocation,
    /// The time of the last processed event of this lineage.
    pub last_event_time: u64,
}

impl Lineage {
    pub fn new(global_reference: u64, indexed_location: IndexedLocation, last_event_time: u64)
        -> (r: Lineage)
        ensures
            r == (Lineage { global_reference, indexed_location, last_event_time }),
    {
        Lineage { global_reference, indexed_location, last_event_time }
    }

    /// Whether this lineage can still fire events: its clock has not yet
    /// reached the unrepresentable-time sentinel.
    pub open spec fn wf(self) -> bool {
        self.last_event_time < TIME_INFINITY
    }
}

} // verus!
