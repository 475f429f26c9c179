//! The landscape: per-location habitat capacity.

use vstd::prelude::*;
use crate::landscape::Location;

verus! {

/// The largest accepted width or height of a landscape grid. Keeps every
/// location arithmetic inside `u32`/`usize` range.
pub const MAX_DIMENSION: u32 = 0xFFFF;

/// A malformed input policy, detected at construction time and surfaced
/// immediately.
#[derive(Clone, Copy, PartialEq, Eq, Structural, Debug)]
pub enum ConfigError {
    /// A landscape dimension was zero.
    ZeroDimension,
    /// A landscape dimension exceeded `MAX_DIMENSION`.
    OversizedDimension,
    /// The capacity map does not have `width * height` entries.
    InconsistentMapSize,
    /// A per-location capacity of zero was given where every location must
    /// be habitable.
    UninhabitableLocation,
    /// A turnover rate outside the accepted positive range was given.
    InvalidTurnoverRate,
    /// A decomposition into zero partitions was requested.
    ZeroPartitions,
}

/// Habitat capacity per location of a `width x height` grid, row by row.
#[derive(Clone, PartialEq, Eq, Debug)]
pub struct Habitat {
    width: u32,
    height: u32,
    capacity: Vec<u32>,
}

impl Habitat {
    pub closed spec fn width_spec(self) -> u32 {
        self.width
    }

    pub closed spec fn height_spec(self) -> u32 {
        self.height
    }

    pub closed spec fn capacity_seq(self) -> Seq<u32> {
        self.capacity@
    }

    /// The invariant established by every constructor.
    pub open spec fn wf(self) -> bool {
        &&& 1 <= self.width_spec() <= MAX_DIMENSION
        &&& 1 <= self.height_spec() <= MAX_DIMENSION
        &&& self.capacity_seq().len() == (self.width_spec() as int) * (self.height_spec() as int)
    }

    /// Whether `location` lies on the grid.
    pub open spec fn contains(self, location: Location) -> bool {
        location.x < self.width_spec() && location.y < self.height_spec()
    }

    /// The row-major index of `location`.
    pub open spec fn location_index(self, location: Location) -> int {
        (location.y as int) * (self.width_spec() as int) + (location.x as int)
    }

    /// The habitat capacity at `location`.
    pub open spec fn capacity_at(self, location: Location) -> u32 {
        self.capacity_seq()[self.location_index(location)]
    }

    /// Whether `location` can host at least one individual.
    pub open spec fn is_habitable(self, location: Location) -> bool {
        self.contains(location) && self.capacity_at(location) >= 1
    }

    /// The location whose row-major index is `index`.
    pub open spec fn location_at_index(self, index: int) -> Location {
        Location {
            x: (index % (self.width_spec() as int)) as u32,
            y: (index / (self.width_spec() as int)) as u32,
        }
    }

    /// Whether every location of the grid is habitable.
    pub open spec fn all_habitable(self) -> bool {
        forall|l: Location| self.contains(l) ==> self.is_habitable(l)
    }

    pub proof fn lemma_index_in_range(self, location: Location)
        requires
            self.wf(),
            self.contains(location),
        ensures
            0 <= self.location_index(location) < self.capacity_seq().len(),
    {
        assert((location.y as int) * (self.width as int) + (location.x as int) < (
        self.width as int) * (self.height as int)) by (nonlinear_arith)
            requires
                (location.y as int) < (self.height as int),
                (location.x as int) < (self.width as int),
                self.width >= 1,
        ;
    }

    proof fn lemma_small_index(self, location: Location)
        requires
            self.wf(),
            self.contains(location),
        ensures
            0 <= self.location_index(location) <= 0xFFFF_FFFF,
    {
        assert((location.y as int) * (self.width_spec() as int) + (location.x as int)
            <= 0xFFFF_FFFF) by (nonlinear_arith)
            requires
                (location.y as int) < (self.height_spec() as int),
                (location.x as int) < (self.width_spec() as int),
                1 <= self.width_spec() <= MAX_DIMENSION,
                1 <= self.height_spec() <= MAX_DIMENSION,
        ;
    }

    /// A uniform landscape: a `width x height` area whose every location
    /// hosts up to `deme` individuals.
    pub fn non_spatial(width: u32, height: u32, deme: u32) -> (r: Result<Habitat, ConfigError>)
        ensures
            width == 0 || height == 0 ==> r == Result::<Habitat, ConfigError>::Err(
                ConfigError::ZeroDimension,
            ),
            1 <= width && 1 <= height && (width > MAX_DIMENSION || height > MAX_DIMENSION) ==> r
                == Result::<Habitat, ConfigError>::Err(ConfigError::OversizedDimension),
            1 <= width <= MAX_DIMENSION && 1 <= height <= MAX_DIMENSION && deme == 0 ==> r
                == Result::<Habitat, ConfigError>::Err(ConfigError::UninhabitableLocation),
            1 <= width <= MAX_DIMENSION && 1 <= height <= MAX_DIMENSION && deme >= 1 ==> {
                &&& r matches Ok(h)
                &&& h.wf()
                &&& h.width_spec() == width
                &&& h.height_spec() == height
                &&& forall|l: Location| h.contains(l) ==> h.capacity_at(l) == deme
                &&& h.all_habitable()
            },
    {
        if width == 0 || height == 0 {
            return Err(ConfigError::ZeroDimension);
        }
        if width > MAX_DIMENSION || height > MAX_DIMENSION {
            return Err(ConfigError::OversizedDimension);
        }
        if deme == 0 {
            return Err(ConfigError::UninhabitableLocation);
        }
        proof {
            assert((width as int) * (height as int) <= 0xFFFF_FFFF) by (nonlinear_arith)
                requires
                    width <= MAX_DIMENSION,
                    height <= MAX_DIMENSION,
            ;
        }
        let area: u64 = (width as u64) * (height as u64);
        let mut capacity: Vec<u32> = Vec::new();
        let mut i: u64 = 0;
        while i < area
            invariant
                i <= area,
                capacity@.len() == i,
                forall|k: int| 0 <= k < i ==> capacity@[k] == deme,
            decreases area - i,
        {
            capacity.push(deme);
            i = i + 1;
        }
        let habitat = Habitat { width, height, capacity };
        proof {
            assert(habitat.wf());
            assert forall|l: Location| habitat.contains(l) implies habitat.capacity_at(l)
                == deme by {
                habitat.lemma_index_in_range(l);
            }
        }
        Ok(habitat)
    }

    /// A landscape loaded from an explicit capacity map, row by row.
    pub fn in_memory(capacity: Vec<u32>, width: u32, height: u32) -> (r: Result<
        Habitat,
        ConfigError,
    >)
        ensures
            width == 0 || height == 0 ==> r == Result::<Habitat, ConfigError>::Err(
                ConfigError::ZeroDimension,
            ),
            1 <= width && 1 <= height && (width > MAX_DIMENSION || height > MAX_DIMENSION) ==> r
                == Result::<Habitat, ConfigError>::Err(ConfigError::OversizedDimension),
            1 <= width <= MAX_DIMENSION && 1 <= height <= MAX_DIMENSION && capacity@.len() != (
            width as int) * (height as int) ==> r == Result::<Habitat, ConfigError>::Err(
                ConfigError::InconsistentMapSize,
            ),
            1 <= width <= MAX_DIMENSION && 1 <= height <= MAX_DIMENSION && capacity@.len() == (
            width as int) * (height as int) ==> {
                &&& r matches Ok(h)
                &&& h.wf()
                &&& h.width_spec() == width
                &&& h.height_spec() == height
                &&& h.capacity_seq() == capacity@
            },
    {
        if width == 0 || height == 0 {
            return Err(ConfigError::ZeroDimension);
        }
        if width > MAX_DIMENSION || height > MAX_DIMENSION {
            return Err(ConfigError::OversizedDimension);
        }
        proof {
            assert((width as int) * (height as int) <= 0xFFFF_FFFF) by (nonlinear_arith)
                requires
                    width <= MAX_DIMENSION,
                    height <= MAX_DIMENSION,
            ;
        }
        let area: u64 = (width as u64) * (height as u64);
        if (capacity.len() as u64) != area {
            return Err(ConfigError::InconsistentMapSize);
        }
        Ok(Habitat { width, height, capacity })
    }

    pub fn get_width(&self) -> (r: u32)
        ensures
            r == self.width_spec(),
    {
        self.width
    }

    pub fn get_height(&self) -> (r: u32)
        ensures
            r == self.height_spec(),
    {
        self.height
    }

    /// The number of grid locations.
    pub fn area(&self) -> (r: u64)
        requires
            self.wf(),
        ensures
            r == (self.width_spec() as int) * (self.height_spec() as int),
            1 <= r <= 0xFFFF_FFFF,
    {
        proof {
            assert(1 <= (self.width as int) * (self.height as int)
                <= 0xFFFF_FFFF) by (nonlinear_arith)
                requires
                    1 <= self.width <= MAX_DIMENSION,
                    1 <= self.height <= MAX_DIMENSION,
            ;
        }
        (self.width as u64) * (self.height as u64)
    }

    /// The habitat capacity at `location`.
    pub fn get_habitat_at_location(&self, location: &Location) -> (r: u32)
        requires
            self.wf(),
            self.contains(*location),
        ensures
            r == self.capacity_at(*location),
    {
        proof {
            self.lemma_index_in_range(*location);
            self.lemma_small_index(*location);
        }
        let index: u64 = (location.y as u64) * (self.width as u64) + (location.x as u64);
        self.capacity[index as usize]
    }

    /// The row-major index of `location`, used as a deterministic priming
    /// key for the random-number generator.
    pub fn location_key(&self, location: &Location) -> (r: u64)
        requires
            self.wf(),
            self.contains(*location),
        ensures
            r == self.location_index(*location),
            r < (self.width_spec() as int) * (self.height_spec() as int),
            r <= 0xFFFF_FFFF,
    {
        proof {
            self.lemma_index_in_range(*location);
            self.lemma_small_index(*location);
        }
        (location.y as u64) * (self.width as u64) + (location.x as u64)
    }

    /// The location whose row-major index is `index`.
    pub fn location_of_index(&self, index: u64) -> (r: Location)
        requires
            self.wf(),
            index < (self.width_spec() as int) * (self.height_spec() as int),
        ensures
            r == self.location_at_index(index as int),
            self.contains(r),
            self.location_index(r) == index,
    {
        proof {
            assert((index as int) / (self.width as int) < (self.height as int) && (index as int) % (
            self.width as int) < (self.width as int) && (index as int) / (self.width as int) * (
            self.width as int) + (index as int) % (self.width as int) == index) by (nonlinear_arith)
                requires
                    1 <= self.width,
                    1 <= self.height,
                    0 <= index < (self.width as int) * (self.height as int),
            ;
        }
        let y: u64 = index / (self.width as u64);
        let x: u64 = index % (self.width as u64);
        Location { x: x as u32, y: y as u32 }
    }
}

} // verus!
