//! The deterministic, primeable random-number generator.

use vstd::prelude::*;
use vstd::wrapping::u64_specs;

verus! {

/// Weyl-sequence increment of the generator.
pub const RNG_INCREMENT: u64 = 0x9E37_79B9_7F4A_7C15;

/// First mixing multiplier of the output function.
pub const RNG_MIX_A: u64 = 0xBF58_476D_1CE4_E5B9;

/// Second mixing multiplier of the output function.
pub const RNG_MIX_B: u64 = 0x94D0_49BB_1331_11EB;

/// Multiplier folding the location key into a primed stream.
pub const PRIME_LOCATION_MULTIPLIER: u64 = 0xA076_1D64_78BD_642F;

/// Multiplier folding the time key into a primed stream.
pub const PRIME_TIME_MULTIPLIER: u64 = 0xE703_7ED1_A0B4_28DB;

/// A deterministic uniform-sampling primitive with derived samplers.
///
/// One raw draw advances an additive counter and mixes it into a 64-bit
/// output; the output plays the role of a uniform sample from `[0, 1)`
/// scaled by `2^64`. The generator is "primeable": `prime_with` reseeds
/// the stream from a (location, time-step) key so that the same key always
/// yields the same subsequent draws, independent of call order.
#[derive(Clone, Copy, PartialEq, Eq, Structural, Debug)]
pub struct SimRng {
    seed: u64,
    state: u64,
}

/// The counter value after one raw draw from counter value `state`.
pub open spec fn rng_next_state(state: u64) -> u64 {
    u64_specs::wrapping_add(state, RNG_INCREMENT)
}

/// The 64-bit output of one raw draw from counter value `state`.
pub open spec fn rng_output(state: u64) -> u64 {
    let z0 = rng_next_state(state);
    let z1 = u64_specs::wrapping_mul(z0 ^ (z0 >> 30u64), RNG_MIX_A);
    let z2 = u64_specs::wrapping_mul(z1 ^ (z1 >> 27u64), RNG_MIX_B);
    z2 ^ (z2 >> 31u64)
}

/// The counter value installed by priming a generator of seed `seed` with
/// a (location, time) key.
pub open spec fn rng_primed_state(seed: u64, location_index: u64, time_index: u64) -> u64 {
    seed ^ u64_specs::wrapping_mul(location_index, PRIME_LOCATION_MULTIPLIER) ^ u64_specs::wrapping_mul(
        time_index,
        PRIME_TIME_MULTIPLIER,
    )
}

/// `floor(draw * length / 2^64)`: the index in `[0, length)` selected by the
/// raw draw `draw`.
pub open spec fn index_of_draw(draw: u64, length: u64) -> u64 {
    (((draw as int) * (length as int)) / 0x1_0000_0000_0000_0000) as u64
}

/// A drawn index lies below its length.
pub proof fn lemma_index_of_draw_bound(draw: u64, length: u64)
    requires
        length >= 1,
    ensures
        index_of_draw(draw, length) < length,
{
    assert(((draw as int) * (length as int)) / 0x1_0000_0000_0000_0000 < length as int)
        by (nonlinear_arith)
        requires
            draw < 0x1_0000_0000_0000_0000,
            length >= 1,
    ;
}

/// Whether the raw draw `draw` lands below probability `p`.
pub open spec fn event_of_draw(draw: u64, p: crate::bond::ClosedUnitFraction) -> bool {
    index_of_draw(draw, p.denom()) < p.numer()
}

impl SimRng {
    /// A generator whose stream is entirely determined by `seed`.
    pub fn from_seed(seed: u64) -> (r: SimRng)
        ensures
            r.seed() == seed,
            r.state() == seed,
    {
        SimRng { seed, state: seed }
    }

    pub closed spec fn seed(self) -> u64 {
        self.seed
    }

    pub closed spec fn state(self) -> u64 {
        self.state
    }

    /// One raw 64-bit draw; the uniform-sampling primitive.
    pub fn sample_u64(&mut self) -> (r: u64)
        ensures
            final(self).seed() == old(self).seed(),
            final(self).state() == rng_next_state(old(self).state()),
            r == rng_output(old(self).state()),
    {
        self.state = self.state.wrapping_add(RNG_INCREMENT);
        let z0 = self.state;
        let z1 = (z0 ^ (z0 >> 30u64)).wrapping_mul(RNG_MIX_A);
        let z2 = (z1 ^ (z1 >> 27u64)).wrapping_mul(RNG_MIX_B);
        z2 ^ (z2 >> 31u64)
    }

    /// An index uniformly drawn from `[0, length)`, as
    /// `floor(uniform * length)`.
    pub fn sample_index(&mut self, length: u64) -> (r: u64)
        requires
            length >= 1,
        ensures
            final(self).seed() == old(self).seed(),
            final(self).state() == rng_next_state(old(self).state()),
            r == index_of_draw(rng_output(old(self).state()), length),
            r < length,
    {
        let draw = self.sample_u64();
        proof {
            assert((draw as int) * (length as int) < 0x1_0000_0000_0000_0000_0000_0000_0000_0000)
                by (nonlinear_arith)
                requires
                    draw < 0x1_0000_0000_0000_0000,
                    length < 0x1_0000_0000_0000_0000,
            ;
        }
        let wide: u128 = (draw as u128) * (length as u128);
        let index: u128 = wide / 0x1_0000_0000_0000_0000u128;
        proof {
            assert(wide < 0x1_0000_0000_0000_0000 * (length as int)) by (nonlinear_arith)
                requires
                    wide == (draw as int) * (length as int),
                    draw < 0x1_0000_0000_0000_0000,
                    length >= 1,
            ;
            assert(index < length) by (nonlinear_arith)
                requires
                    index == wide / 0x1_0000_0000_0000_0000,
                    wide < 0x1_0000_0000_0000_0000 * (length as int),
            ;
        }
        index as u64
    }

    /// A Bernoulli draw: true with probability exactly `p`.
    pub fn sample_event(&mut self, p: crate::bond::ClosedUnitFraction) -> (r: bool)
        requires
            p.wf(),
        ensures
            final(self).seed() == old(self).seed(),
            final(self).state() == rng_next_state(old(self).state()),
            r == event_of_draw(rng_output(old(self).state()), p),
            p.is_always() ==> r,
            p.is_never() ==> !r,
    {
        let draw = self.sample_index(p.get_denom());
        draw < p.get_numer()
    }

    /// Deterministically reseed the stream from a (location, time-step) key,
    /// so that the same key yields the same subsequent draws regardless of
    /// the order in which work was scheduled.
    pub fn prime_with(&mut self, location_index: u64, time_index: u64)
        ensures
            final(self).seed() == old(self).seed(),
            final(self).state() == rng_primed_state(old(self).seed(), location_index, time_index),
    {
        self.state = self.seed ^ location_index.wrapping_mul(PRIME_LOCATION_MULTIPLIER)
            ^ time_index.wrapping_mul(PRIME_TIME_MULTIPLIER);
    }
}

} // verus!
