//! Scalars, and triples of them.
use vstd::prelude::*;

verus! {

/// An ordered key that stands for a real number.
///
/// The key of a non-negative IEEE 754 binary64 value is its bit pattern; the
/// key of a negative one is the bitwise complement of the bit pattern of its
/// magnitude. So `a < b` as keys exactly when the number behind `a` is below
/// the number behind `b`, the key of zero is `0`, and the keys of both
/// infinities are ordinary keys. Negative zero is keyed as zero; a
/// not-a-number has no key.
pub type Scalar = i64;

/// The key of zero.
pub const ZERO: Scalar = 0;

/// The key of one.
pub const ONE: Scalar = 0x3ff0_0000_0000_0000;

/// The key of positive infinity: no key of a number lies above it.
pub const INFINITY: Scalar = 0x7ff0_0000_0000_0000;

/// Three scalars: a direction, a position or a colour.
#[derive(Clone, Copy, Debug, PartialEq, Eq, Structural)]
pub struct Vec3 {
    pub x: Scalar,
    pub y: Scalar,
    pub z: Scalar,
}

/// A position in space.
pub type Point3 = Vec3;

/// A colour, one scalar per channel.
pub type Color = Vec3;

impl Vec3 {
    pub fn new(x: Scalar, y: Scalar, z: Scalar) -> (v: Self)
        ensures
            v == (Vec3 { x, y, z }),
    {
        Vec3 { x, y, z }
    }

    /// The triple whose components are all zero.
    pub open spec fn zero_spec() -> Vec3 {
        Vec3 { x: ZERO, y: ZERO, z: ZERO }
    }

    /// The triple whose components are all one.
    pub open spec fn ones_spec() -> Vec3 {
        Vec3 { x: ONE, y: ONE, z: ONE }
    }

    /// The triple whose components are all zero.
    pub fn zero() -> (v: Self)
        ensures
            v == Vec3::zero_spec(),
    {
        Vec3 { x: ZERO, y: ZERO, z: ZERO }
    }

    /// The triple whose components are all one.
    pub fn ones() -> (v: Self)
        ensures
            v == Vec3::ones_spec(),
    {
        Vec3 { x: ONE, y: ONE, z: ONE }
    }

    /// The component on `axis`: 0 is `x`, 1 is `y`, anything else is `z`.
    pub open spec fn at(self, axis: int) -> Scalar {
        if axis == 0 {
            self.x
        } else if axis == 1 {
            self.y
        } else {
            self.z
        }
    }

    /// The component on `axis`, as [`Vec3::at`] names it.
    pub fn get(&self, axis: usize) -> (s: Scalar)
        ensures
            s == self.at(axis as int),
    {
        if axis == 0 {
            self.x
        } else if axis == 1 {
            self.y
        } else {
            self.z
        }
    }

    /// Every component lies between zero and one, ends included.
    pub open spec fn in_unit_range(self) -> bool {
        &&& ZERO <= self.x <= ONE
        &&& ZERO <= self.y <= ONE
        &&& ZERO <= self.z <= ONE
    }
}

} // verus!
