//! Rays.
use vstd::prelude::*;
use crate::vec3::Point3;
use crate::vec3::Vec3;

verus! {

/// A half-line: the points `orig + t * dir` for the ray parameters `t`.
#[derive(Clone, Copy, Debug, PartialEq, Eq, Structural)]
pub struct Ray {
    pub orig: Point3,
    pub dir: Vec3,
}

impl Ray {
    pub fn new(orig: Point3, dir: Vec3) -> (r: Self)
        ensures
            r == (Ray { orig, dir }),
    {
        Ray { orig, dir }
    }
}

} // verus!
