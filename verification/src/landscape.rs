//! Locations on the landscape grid.

use vstd::prelude::*;

verus! {

/// An integer (x, y) coordinate on the landscape. Immutable value type.
#[derive(Clone, Copy, PartialEq, Eq, Structural, Debug, Hash)]
pub struct Location {
    pub x: u32,
    pub y: u32,
}

impl Location {
    pub fn new(x: u32, y: u32) -> (r: Location)
        ensures
            r.x == x,
            r.y == y,
    {
        Location { x, y }
    }
}

/// A `Location` together with a non-negative slot index that distinguishes
/// several individuals co-located at the same location. Immutable value type.
#[derive(Clone, Copy, PartialEq, Eq, Structural, Debug, Hash)]
pub struct IndexedLocation {
    pub location: Location,
    pub index: u32,
}

impl IndexedLocation {
    pub fn new(location: Location, index: u32) -> (r: IndexedLocation)
        ensures
            r.location == location,
            r.index == index,
    {
        IndexedLocation { location, index }
    }
}

} // verus!
