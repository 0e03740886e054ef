//! What a ray can hit: the record of an intersection, and the capability
//! that every piece of geometry offers.
use vstd::prelude::*;
use std::sync::Arc;
use crate::aabb::AABB;
use crate::ray::Ray;
use crate::vec3::Point3;
use crate::vec3::Scalar;
use crate::vec3::Vec3;
use crate::vec3::ZERO;

verus! {

/// One intersection of a ray with a surface.
pub struct HitRecord<M> {
    /// Where the ray meets the surface.
    pub p: Point3,
    /// The surface normal there, turned against the ray.
    pub normal: Vec3,
    /// The material of the surface.
    pub mat_ptr: Arc<M>,
    /// The ray parameter of the intersection.
    pub t: Scalar,
    /// First surface parameter.
    pub u: Scalar,
    /// Second surface parameter.
    pub v: Scalar,
    /// Whether the ray arrives from outside the surface.
    pub front_face: bool,
}

impl<M> HitRecord<M> {
    /// A record at the origin with parameter zero, of material `m`.
    pub fn new(m: Arc<M>) -> (rec: Self)
        ensures
            rec.p == Vec3::zero_spec(),
            rec.normal == Vec3::zero_spec(),
            rec.mat_ptr == m,
            rec.t == ZERO,
            rec.u == ZERO,
            rec.v == ZERO,
            !rec.front_face,
    {
        Self {
            p: Point3::zero(),
            normal: Vec3::zero(),
            mat_ptr: m,
            t: ZERO,
            u: ZERO,
            v: ZERO,
            front_face: false,
        }
    }

    /// Orients the normal against the ray. `facing` is the dot product of
    /// the ray's direction with the outward normal: the ray arrives from
    /// outside exactly when it is negative, and the record then keeps the
    /// outward normal; otherwise it takes `inward`, the outward normal
    /// negated.
    pub fn set_face_normal(&mut self, facing: Scalar, outward_normal: &Vec3, inward: &Vec3)
        ensures
            final(self).front_face == (facing < ZERO),
            final(self).normal == if facing < ZERO {
                *outward_normal
            } else {
                *inward
            },
            final(self).p == old(self).p,
            final(self).mat_ptr == old(self).mat_ptr,
            final(self).t == old(self).t,
            final(self).u == old(self).u,
            final(self).v == old(self).v,
    {
        self.front_face = facing < ZERO;
        if self.front_face {
            self.normal = *outward_normal;
        } else {
            self.normal = *inward;
        }
    }
}

/// The capability of geometry: to be intersected by a ray, to be bounded by
/// a box, and to tell how far a point is from it.
///
/// Each method answers as a function of its arguments; the function is
/// named beside it, and an implementation that does not say what it is
/// leaves it open.
pub trait HitTable {
    /// The material that its surfaces are made of.
    type Mat;

    /// The intersection that [`HitTable::hit`] reports.
    closed spec fn hit_spec(&self, r: Ray, t_min: Scalar, t_max: Scalar) -> Option<
        HitRecord<Self::Mat>,
    > {
        arbitrary()
    }

    /// The intersection of `r` with this geometry whose parameter lies in
    /// the window from `t_min` to `t_max`, if there is one.
    fn hit(&self, r: &Ray, t_min: Scalar, t_max: Scalar) -> (rec: Option<HitRecord<Self::Mat>>)
        ensures
            rec == self.hit_spec(*r, t_min, t_max),
    ;

    /// The box that [`HitTable::bounding_box`] reports.
    closed spec fn box_spec(&self, t0: Scalar, t1: Scalar) -> Option<AABB> {
        arbitrary()
    }

    /// A box around this geometry over the time span from `t0` to `t1`, or
    /// `None` where it has none.
    fn bounding_box(&self, t0: Scalar, t1: Scalar) -> (b: Option<AABB>)
        ensures
            b == self.box_spec(t0, t1),
    ;

    /// The distance that [`HitTable::distance`] reports.
    closed spec fn distance_spec(&self, other_center: Point3) -> Scalar {
        arbitrary()
    }

    /// The signed distance from `other_center` to the surface.
    fn distance(&self, other_center: &Point3) -> (d: Scalar)
        ensures
            d == self.distance_spec(*other_center),
    ;
}

/// The parameter of what `obj` reports on `(t_min, t_max)`.
pub open spec fn hit_t<T: HitTable>(obj: T, r: Ray, t_min: Scalar, t_max: Scalar) -> Option<
    Scalar,
> {
    match obj.hit_spec(r, t_min, t_max) {
        Some(h) => Some(h.t),
        None => None,
    }
}

/// How the answer on a window follows from the answer on a wider one with
/// the same lower end, when the upper end comes down to `lower`: an
/// intersection before `lower` is still reported, one behind it is not, and
/// one exactly at `lower` may go either way, since some geometry counts the
/// ends of its window and some does not.
pub open spec fn narrows_to(wide: Option<Scalar>, narrow: Option<Scalar>, lower: Scalar) -> bool {
    match wide {
        Some(t) => if t < lower {
            narrow == Some(t)
        } else if t > lower {
            narrow is None
        } else {
            narrow is None || narrow == Some(t)
        },
        None => narrow is None,
    }
}

/// `obj` answers as a surface does: what it reports does not lie behind the
/// window that was asked for, and lowering the upper end of the window
/// changes the answer only as [`narrows_to`] allows.
pub open spec fn answers_by_window<T: HitTable>(obj: T, r: Ray, t_min: Scalar) -> bool {
    &&& forall|t_max: Scalar| #[trigger] hit_t(obj, r, t_min, t_max) matches Some(t) ==> t <= t_max
    &&& forall|t_max: Scalar, lower: Scalar|
        lower <= t_max ==> narrows_to(
            #[trigger] hit_t(obj, r, t_min, t_max),
            #[trigger] hit_t(obj, r, t_min, lower),
            lower,
        )
}

/// Which root of a sphere's quadratic counts as the intersection: with a
/// positive discriminant the smaller root `near` if it lies strictly inside
/// `(t_min, t_max)`, else the larger root `far` if that one does; otherwise
/// none.
pub open spec fn spec_nearest_root(
    discriminant: Scalar,
    near: Scalar,
    far: Scalar,
    t_min: Scalar,
    t_max: Scalar,
) -> Option<Scalar> {
    if discriminant > ZERO && t_min < near < t_max {
        Some(near)
    } else if discriminant > ZERO && t_min < far < t_max {
        Some(far)
    } else {
        None
    }
}

/// Picks the root of a sphere's quadratic that the ray hits first inside
/// the window, from the discriminant and the two roots.
pub fn nearest_root(
    discriminant: Scalar,
    near: Scalar,
    far: Scalar,
    t_min: Scalar,
    t_max: Scalar,
) -> (t: Option<Scalar>)
    ensures
        t == spec_nearest_root(discriminant, near, far, t_min, t_max),
{
    if discriminant > ZERO {
        if near < t_max && near > t_min {
            return Some(near);
        }
        if far < t_max && far > t_min {
            return Some(far);
        }
    }
    None
}

/// With the roots in order, the choice of root answers by window: it lies
/// inside the window, and a lower upper end keeps it or loses it.
pub proof fn lemma_nearest_root_by_window(
    discriminant: Scalar,
    near: Scalar,
    far: Scalar,
    t_min: Scalar,
    t_max: Scalar,
    lower: Scalar,
)
    requires
        near <= far,
        lower <= t_max,
    ensures
        spec_nearest_root(discriminant, near, far, t_min, t_max) matches Some(t) ==> t_min < t
            < t_max,
        narrows_to(
            spec_nearest_root(discriminant, near, far, t_min, t_max),
            spec_nearest_root(discriminant, near, far, t_min, lower),
            lower,
        ),
{
}

} // verus!
