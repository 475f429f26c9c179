//! A small three-component vector used by gradient-noise landscape
//! generators.

use vstd::prelude::*;

verus! {

/// A three-component vector.
#[derive(Clone, Copy, PartialEq, Eq, Structural, Debug)]
pub struct Vec3<T> {
    pub x: T,
    pub y: T,
    pub z: T,
}

impl<T> Vec3<T> {
    pub fn new(x: T, y: T, z: T) -> (r: Vec3<T>)
        ensures
            r == (Vec3 { x, y, z }),
    {
        Vec3 { x, y, z }
    }
}

impl<T: Copy> Vec3<T> {
    /// Apply `f` to each component.
    pub fn map<Y, F: Fn(T) -> Y>(&self, f: F) -> (r: Vec3<Y>)
        requires
            call_requires(f, (self.x,)),
            call_requires(f, (self.y,)),
            call_requires(f, (self.z,)),
        ensures
            call_ensures(f, (self.x,), r.x),
            call_ensures(f, (self.y,), r.y),
            call_ensures(f, (self.z,), r.z),
    {
        Vec3 { x: f(self.x), y: f(self.y), z: f(self.z) }
    }
}

/// The component bound within which the integer operations below cannot
/// overflow.
pub const VEC3_COMPONENT_BOUND: i64 = 0x4000_0000;

impl Vec3<i64> {
    pub open spec fn bounded(self) -> bool {
        &&& -VEC3_COMPONENT_BOUND <= self.x <= VEC3_COMPONENT_BOUND
        &&& -VEC3_COMPONENT_BOUND <= self.y <= VEC3_COMPONENT_BOUND
        &&& -VEC3_COMPONENT_BOUND <= self.z <= VEC3_COMPONENT_BOUND
    }

    /// The sum of the components.
    pub fn sum(&self) -> (r: i64)
        requires
            self.bounded(),
        ensures
            r == self.x + self.y + self.z,
    {
        self.x + self.y + self.z
    }

    /// The squared length, used as a noise attenuation factor.
    pub fn get_attenuation_factor(&self) -> (r: i64)
        requires
            self.bounded(),
        ensures
            r == self.x * self.x + self.y * self.y + self.z * self.z,
    {
        proof {
            assert(0 <= self.x * self.x <= VEC3_COMPONENT_BOUND * VEC3_COMPONENT_BOUND
                && 0 <= self.y * self.y <= VEC3_COMPONENT_BOUND * VEC3_COMPONENT_BOUND && 0
                <= self.z * self.z <= VEC3_COMPONENT_BOUND * VEC3_COMPONENT_BOUND)
                by (nonlinear_arith)
                requires
                    -VEC3_COMPONENT_BOUND <= self.x <= VEC3_COMPONENT_BOUND,
                    -VEC3_COMPONENT_BOUND <= self.y <= VEC3_COMPONENT_BOUND,
                    -VEC3_COMPONENT_BOUND <= self.z <= VEC3_COMPONENT_BOUND,
            ;
        }
        self.x * self.x + self.y * self.y + self.z * self.z
    }

    /// Component-wise difference.
    pub fn minus(&self, rhs: &Vec3<i64>) -> (r: Vec3<i64>)
        requires
            self.bounded(),
            rhs.bounded(),
        ensures
            r == (Vec3 {
                x: (self.x - rhs.x) as i64,
                y: (self.y - rhs.y) as i64,
                z: (self.z - rhs.z) as i64,
            }),
    {
        Vec3 { x: self.x - rhs.x, y: self.y - rhs.y, z: self.z - rhs.z }
    }

    /// Component-wise sum.
    pub fn plus(&self, rhs: &Vec3<i64>) -> (r: Vec3<i64>)
        requires
            self.bounded(),
            rhs.bounded(),
        ensures
            r == (Vec3 {
                x: (self.x + rhs.x) as i64,
                y: (self.y + rhs.y) as i64,
                z: (self.z + rhs.z) as i64,
            }),
    {
        Vec3 { x: self.x + rhs.x, y: self.y + rhs.y, z: self.z + rhs.z }
    }

    /// Scale every component by `rhs`.
    pub fn scale(&self, rhs: i64) -> (r: Vec3<i64>)
        requires
            self.bounded(),
            -VEC3_COMPONENT_BOUND <= rhs <= VEC3_COMPONENT_BOUND,
        ensures
            r == (Vec3 {
                x: (self.x * rhs) as i64,
                y: (self.y * rhs) as i64,
                z: (self.z * rhs) as i64,
            }),
    {
        proof {
            assert(-VEC3_COMPONENT_BOUND * VEC3_COMPONENT_BOUND <= self.x * rhs
                <= VEC3_COMPONENT_BOUND * VEC3_COMPONENT_BOUND && -VEC3_COMPONENT_BOUND
                * VEC3_COMPONENT_BOUND <= self.y * rhs <= VEC3_COMPONENT_BOUND
                * VEC3_COMPONENT_BOUND && -VEC3_COMPONENT_BOUND * VEC3_COMPONENT_BOUND <= self.z
                * rhs <= VEC3_COMPONENT_BOUND * VEC3_COMPONENT_BOUND) by (nonlinear_arith)
                requires
                    -VEC3_COMPONENT_BOUND <= self.x <= VEC3_COMPONENT_BOUND,
                    -VEC3_COMPONENT_BOUND <= self.y <= VEC3_COMPONENT_BOUND,
                    -VEC3_COMPONENT_BOUND <= self.z <= VEC3_COMPONENT_BOUND,
                    -VEC3_COMPONENT_BOUND <= rhs <= VEC3_COMPONENT_BOUND,
            ;
        }
        Vec3 { x: self.x * rhs, y: self.y * rhs, z: self.z * rhs }
    }
}

} // verus!
