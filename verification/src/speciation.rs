//! The speciation-probability policy.

use vstd::prelude::*;
use crate::bond::ClosedUnitFraction;
use crate::habitat::Habitat;
use crate::landscape::Location;

verus! {

/// A location-independent per-event speciation probability.
#[derive(Clone, Copy, PartialEq, Eq, Structural, Debug)]
pub struct UniformSpeciationProbability {
    speciation_probability: ClosedUnitFraction,
}

impl UniformSpeciationProbability {
    /// A uniform speciation probability; the probability itself was checked
    /// at its own construction.
    pub fn new(speciation_probability: ClosedUnitFraction) -> (r: UniformSpeciationProbability)
        ensures
            r.probability_spec() == speciation_probability,
    {
        UniformSpeciationProbability { speciation_probability }
    }

    pub closed spec fn probability_spec(self) -> ClosedUnitFraction {
        self.speciation_probability
    }

    pub open spec fn wf(self) -> bool {
        self.probability_spec().wf()
    }

    /// The speciation probability at `location`: uniform, so independent
    /// of it.
    pub fn get_speciation_probability_at_location(&self, location: &Location, habitat: &Habitat)
        -> (r: ClosedUnitFraction)
        ensures
            r == self.probability_spec(),
    {
        self.speciation_probability
    }
}

} // verus!
