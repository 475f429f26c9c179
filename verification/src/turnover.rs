//! The turnover-rate policy: how densely events are packed in time.

use vstd::prelude::*;
use crate::habitat::{ConfigError, Habitat};
use crate::landscape::Location;

verus! {

/// The default turnover span.
pub const DEFAULT_TURNOVER_SPAN: u64 = 2;

/// A location-independent turnover rate.
///
/// The rate is expressed as a positive "span" of ticks: a lineage's next
/// event is scheduled between 1 and `span` ticks after its previous one,
/// so a smaller span is a higher turnover rate. A continuous-time
/// exponential clock is a collaborator policy that this integer span
/// stands in for.
#[derive(Clone, Copy, PartialEq, Eq, Structural, Debug)]
pub struct UniformTurnoverRate {
    span: u64,
}

impl UniformTurnoverRate {
    /// A uniform turnover rate of `1 / span`, checked to be positive and to
    /// keep `1 + span` representable.
    pub fn new(span: u64) -> (r: Result<UniformTurnoverRate, ConfigError>)
        ensures
            span == 0 || span >= u64::MAX - 1 ==> r == Result::<
                UniformTurnoverRate,
                ConfigError,
            >::Err(ConfigError::InvalidTurnoverRate),
            1 <= span < u64::MAX - 1 ==> (r matches Ok(t) && t.span_spec() == span),
            r matches Ok(t) ==> t.wf(),
    {
        if span == 0 || span >= u64::MAX - 1 {
            Err(ConfigError::InvalidTurnoverRate)
        } else {
            Ok(UniformTurnoverRate { span })
        }
    }

    pub closed spec fn span_spec(self) -> u64 {
        self.span
    }

    /// The invariant established by the constructor.
    pub open spec fn wf(self) -> bool {
        1 <= self.span_spec() < u64::MAX - 1
    }

    /// The turnover span at `location`: uniform, so independent of it.
    pub fn get_turnover_rate_at_location(&self, location: &Location, habitat: &Habitat) -> (r: u64)
        ensures
            r == self.span_spec(),
    {
        self.span
    }

    /// The uniform turnover span itself.
    pub fn get_uniform_turnover_rate(&self) -> (r: u64)
        ensures
            r == self.span_spec(),
    {
        self.span
    }
}

impl Default for UniformTurnoverRate {
    /// The default turnover rate, `1 / DEFAULT_TURNOVER_SPAN`.
    fn default() -> (r: UniformTurnoverRate)
        ensures
            r.span_spec() == DEFAULT_TURNOVER_SPAN,
            r.wf(),
    {
        UniformTurnoverRate { span: DEFAULT_TURNOVER_SPAN }
    }
}

} // verus!
