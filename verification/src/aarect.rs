//! Axis-aligned rectangles: flat panels in a plane of constant `z`.
use vstd::prelude::*;
use std::sync::Arc;
use crate::aabb::AABB;
use crate::hittable::narrows_to;
use crate::vec3::Point3;
use crate::vec3::Scalar;

verus! {

/// The rectangle `[x0, x1] x [y0, y1]` in the plane `z = k`.
pub struct XYRect<M> {
    pub mp: Arc<M>,
    pub x0: Scalar,
    pub x1: Scalar,
    pub y0: Scalar,
    pub y1: Scalar,
    pub k: Scalar,
}

impl<M> XYRect<M> {
    pub fn new(_x0: Scalar, _x1: Scalar, _y0: Scalar, _y1: Scalar, _k: Scalar, mat: Arc<M>) -> (rect:
        Self)
        ensures
            rect.mp == mat,
            rect.x0 == _x0,
            rect.x1 == _x1,
            rect.y0 == _y0,
            rect.y1 == _y1,
            rect.k == _k,
    {
        Self { mp: mat, x0: _x0, x1: _x1, y0: _y0, y1: _y1, k: _k }
    }

    /// Whether a ray that meets the plane of the rectangle at the parameter
    /// `t`, in the point `(x, y)` of the plane, hits the rectangle on the
    /// window from `t0` to `t1`: the parameter lies in the window and the
    /// point in the rectangle, ends and edges included.
    pub open spec fn covers(self, t: Scalar, t0: Scalar, t1: Scalar, x: Scalar, y: Scalar) -> bool {
        &&& t0 <= t <= t1
        &&& self.x0 <= x <= self.x1
        &&& self.y0 <= y <= self.y1
    }

    /// Decides the intersection of a ray with the rectangle from where the
    /// ray meets its plane, as [`XYRect::covers`] says.
    pub fn hit(&self, t: Scalar, t0: Scalar, t1: Scalar, x: Scalar, y: Scalar) -> (inside: bool)
        ensures
            inside == self.covers(t, t0, t1, x, y),
    {
        if t < t0 || t > t1 {
            return false;
        }
        if x < self.x0 || x > self.x1 || y < self.y0 || y > self.y1 {
            return false;
        }
        true
    }

    /// The box of the rectangle: its extent in `x` and `y`, and in `z` the
    /// slab from `below` to `above`, two depths just under and just over
    /// the plane, since a box without thickness would escape the slab test.
    pub fn bounding_box(&self, below: Scalar, above: Scalar) -> (b: AABB)
        ensures
            b._min == (Point3 { x: self.x0, y: self.y0, z: below }),
            b._max == (Point3 { x: self.x1, y: self.y1, z: above }),
            below < above ==> b._min.z < b._max.z,
    {
        AABB::new(Point3::new(self.x0, self.y0, below), Point3::new(self.x1, self.y1, above))
    }
}

/// The intersection with a rectangle answers by window: it does not lie
/// behind the window, and a lower upper end keeps it or loses it.
pub proof fn lemma_rect_by_window<M>(
    rect: XYRect<M>,
    t: Scalar,
    t0: Scalar,
    t1: Scalar,
    lower: Scalar,
    x: Scalar,
    y: Scalar,
)
    requires
        lower <= t1,
    ensures
        rect.covers(t, t0, t1, x, y) ==> t <= t1,
        narrows_to(
            if rect.covers(t, t0, t1, x, y) {
                Some(t)
            } else {
                None
            },
            if rect.covers(t, t0, lower, x, y) {
                Some(t)
            } else {
                None
            },
            lower,
        ),
{
}

} // verus!
