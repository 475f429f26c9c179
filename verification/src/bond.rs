//! Bounded numeric value types with their construction-time checks.

use vstd::prelude::*;

verus! {

/// The error returned when a pair of integers does not describe a
/// probability in `[0, 1]`.
#[derive(Clone, Copy, PartialEq, Eq, Structural, Debug)]
pub enum FractionError {
    /// The denominator was zero.
    ZeroDenominator,
    /// The numerator exceeded the denominator.
    AboveOne,
}

/// An exact probability in `[0, 1]`, kept as the rational `numer / denom`.
///
/// Construction is checked once; every later use may rely on
/// `denom >= 1 && numer <= denom`.
#[derive(Clone, Copy, PartialEq, Eq, Structural, Debug)]
pub struct ClosedUnitFraction {
    numer: u64,
    denom: u64,
}

impl ClosedUnitFraction {
    /// The probability `numer / denom`, checked to lie in `[0, 1]`.
    pub fn new(numer: u64, denom: u64) -> (r: Result<ClosedUnitFraction, FractionError>)
        ensures
            denom == 0 ==> r == Result::<ClosedUnitFraction, FractionError>::Err(
                FractionError::ZeroDenominator,
            ),
            denom >= 1 && numer > denom ==> r == Result::<ClosedUnitFraction, FractionError>::Err(
                FractionError::AboveOne,
            ),
            denom >= 1 && numer <= denom ==> (r matches Ok(f) && f.numer() == numer && f.denom()
                == denom),
            r matches Ok(f) ==> f.wf(),
    {
        if denom == 0 {
            Err(FractionError::ZeroDenominator)
        } else if numer > denom {
            Err(FractionError::AboveOne)
        } else {
            Ok(ClosedUnitFraction { numer, denom })
        }
    }

    /// The probability zero.
    pub fn never() -> (r: ClosedUnitFraction)
        ensures
            r.wf(),
            r.numer() == 0,
            r.denom() == 1,
    {
        ClosedUnitFraction { numer: 0, denom: 1 }
    }

    /// The probability one.
    pub fn always() -> (r: ClosedUnitFraction)
        ensures
            r.wf(),
            r.numer() == 1,
            r.denom() == 1,
    {
        ClosedUnitFraction { numer: 1, denom: 1 }
    }

    pub closed spec fn numer(self) -> u64 {
        self.numer
    }

    pub closed spec fn denom(self) -> u64 {
        self.denom
    }

    /// The invariant established by every constructor.
    pub open spec fn wf(self) -> bool {
        1 <= self.denom() && self.numer() <= self.denom()
    }

    /// Whether this probability is exactly one.
    pub open spec fn is_always(self) -> bool {
        self.numer() == self.denom()
    }

    /// Whether this probability is exactly zero.
    pub open spec fn is_never(self) -> bool {
        self.numer() == 0
    }

    pub fn get_numer(&self) -> (r: u64)
        ensures
            r == self.numer(),
    {
        self.numer
    }

    pub fn get_denom(&self) -> (r: u64)
        ensures
            r == self.denom(),
    {
        self.denom
    }
}

} // verus!
