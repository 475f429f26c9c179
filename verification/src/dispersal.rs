//! Dispersal kernels: where a lineage moves between events.

use vstd::prelude::*;
use crate::habitat::Habitat;
use crate::landscape::{IndexedLocation, Location};
use crate::rng::{index_of_draw, lemma_index_of_draw_bound, rng_next_state, rng_output, SimRng};

verus! {

/// A pluggable dispersal kernel.
///
/// A kernel is a pure function of its origin and the generator state, so
/// every draw is pinned by `target_spec` / `state_after_spec`; any landscape
/// shape (non-spatial, infinite-plane, raster-loaded) can stand behind this
/// interface as long as it lands on habitable ground.
pub trait DispersalSampler: Sized {
    /// Whether this kernel can serve every habitable origin of `habitat`.
    spec fn kernel_wf(&self, habitat: Habitat) -> bool;

    /// The target drawn when the generator counter is `rng_state`.
    spec fn target_spec(&self, origin: IndexedLocation, habitat: Habitat, rng_state: u64) -> Location;

    /// The generator counter after the draw.
    spec fn state_after_spec(&self, origin: IndexedLocation, habitat: Habitat, rng_state: u64) -> u64;

    /// Every kernel lands on habitable ground.
    proof fn lemma_target_habitable(&self, origin: IndexedLocation, habitat: Habitat, rng_state: u64)
        requires
            habitat.wf(),
            self.kernel_wf(habitat),
            habitat.contains(origin.location),
        ensures
            habitat.is_habitable(self.target_spec(origin, habitat, rng_state)),
    ;

    /// Draw a dispersal target for a lineage at `origin`.
    fn sample_dispersal(&self, origin: &IndexedLocation, habitat: &Habitat, rng: &mut SimRng)
        -> (r: Location)
        requires
            habitat.wf(),
            self.kernel_wf(*habitat),
            habitat.contains(origin.location),
        ensures
            r == self.target_spec(*origin, *habitat, old(rng).state()),
            final(rng).state() == self.state_after_spec(*origin, *habitat, old(rng).state()),
            final(rng).seed() == old(rng).seed(),
            habitat.is_habitable(r),
    ;
}

/// The non-spatial kernel: a uniform draw over all locations of the grid,
/// independent of the origin.
#[derive(Clone, Copy, PartialEq, Eq, Structural, Debug)]
pub struct UniformDispersalSampler;

impl UniformDispersalSampler {
    pub fn new() -> (r: UniformDispersalSampler)
        ensures
            r == UniformDispersalSampler,
    {
        UniformDispersalSampler
    }
}

impl DispersalSampler for UniformDispersalSampler {
    /// A uniform draw over the whole grid lands on habitable ground only if
    /// the whole grid is habitable.
    open spec fn kernel_wf(&self, habitat: Habitat) -> bool {
        habitat.all_habitable()
    }

    open spec fn target_spec(&self, origin: IndexedLocation, habitat: Habitat, rng_state: u64) -> Location {
        habitat.location_at_index(
            index_of_draw(
                rng_output(rng_state),
                ((habitat.width_spec() as int) * (habitat.height_spec() as int)) as u64,
            ) as int,
        )
    }

    open spec fn state_after_spec(&self, origin: IndexedLocation, habitat: Habitat, rng_state: u64) -> u64 {
        rng_next_state(rng_state)
    }

    proof fn lemma_target_habitable(&self, origin: IndexedLocation, habitat: Habitat, rng_state: u64) {
        let area = ((habitat.width_spec() as int) * (habitat.height_spec() as int)) as u64;
        assert(1 <= (habitat.width_spec() as int) * (habitat.height_spec() as int)
            <= 0xFFFF_FFFF) by (nonlinear_arith)
            requires
                1 <= habitat.width_spec() <= crate::habitat::MAX_DIMENSION,
                1 <= habitat.height_spec() <= crate::habitat::MAX_DIMENSION,
        ;
        lemma_index_of_draw_bound(rng_output(rng_state), area);
        let index = index_of_draw(rng_output(rng_state), area) as int;
        let w = habitat.width_spec() as int;
        let h = habitat.height_spec() as int;
        assert(0 <= index % w < w && 0 <= index / w < h) by (nonlinear_arith)
            requires
                1 <= w,
                1 <= h,
                0 <= index < w * h,
        ;
        let target = habitat.location_at_index(index);
        assert(habitat.contains(target));
    }

    fn sample_dispersal(&self, origin: &IndexedLocation, habitat: &Habitat, rng: &mut SimRng)
        -> (r: Location) {
        let area = habitat.area();
        let index = rng.sample_index(area);
        habitat.location_of_index(index)
    }
}

} // verus!
