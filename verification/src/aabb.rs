//! Axis-aligned bounding boxes: the union of two boxes, and the slab test
//! that tells whether a ray passes through a box.
use vstd::prelude::*;
use crate::ray::Ray;
use crate::rtweekend::fmax;
use crate::rtweekend::fmin;
use crate::rtweekend::spec_fmax;
use crate::rtweekend::spec_fmin;
use crate::vec3::Point3;
use crate::vec3::Scalar;
use crate::vec3::Vec3;

verus! {

/// A box given by its two opposite corners.
#[derive(Clone, Copy, Debug, PartialEq, Eq, Structural)]
pub struct AABB {
    pub _min: Point3,
    pub _max: Point3,
}

/// What a crossing function returns for one axis: the ray parameter at which
/// the ray enters the slab between two parallel planes, and the one at which
/// it leaves.
pub type Span = (Scalar, Scalar);

/// The value that `cross` returns for a slab and a ray component.
pub open spec fn crossing<F: Fn(Scalar, Scalar, Scalar, Scalar) -> Span>(
    cross: F,
    lo: Scalar,
    hi: Scalar,
    orig: Scalar,
    dir: Scalar,
) -> Span {
    choose|s: Span| call_ensures(cross, (lo, hi, orig, dir), s)
}

/// `cross` may be called on every slab and ray, and returns one value for
/// the same arguments.
pub open spec fn is_crossing<F: Fn(Scalar, Scalar, Scalar, Scalar) -> Span>(cross: F) -> bool {
    &&& forall|lo: Scalar, hi: Scalar, orig: Scalar, dir: Scalar|
        call_requires(cross, (lo, hi, orig, dir))
    &&& forall|lo: Scalar, hi: Scalar, orig: Scalar, dir: Scalar, s1: Span, s2: Span|
        call_ensures(cross, (lo, hi, orig, dir), s1) && call_ensures(
            cross,
            (lo, hi, orig, dir),
            s2,
        ) ==> s1 == s2
}

/// A wider slab is entered no later and left no sooner.
pub open spec fn is_monotone<F: Fn(Scalar, Scalar, Scalar, Scalar) -> Span>(cross: F) -> bool {
    forall|lo: Scalar, hi: Scalar, lo2: Scalar, hi2: Scalar, orig: Scalar, dir: Scalar|
        lo2 <= lo && hi <= hi2 ==> {
            &&& (#[trigger] crossing(cross, lo2, hi2, orig, dir)).0 <= (#[trigger] crossing(
                cross,
                lo,
                hi,
                orig,
                dir,
            )).0
            &&& crossing(cross, lo, hi, orig, dir).1 <= crossing(cross, lo2, hi2, orig, dir).1
        }
}

impl AABB {
    pub fn new(mi: Point3, ma: Point3) -> (b: Self)
        ensures
            b._min == mi,
            b._max == ma,
    {
        Self { _min: mi, _max: ma }
    }

    /// On every axis the minimum corner is not above the maximum corner.
    pub open spec fn well_formed(self) -> bool {
        &&& self._min.x <= self._max.x
        &&& self._min.y <= self._max.y
        &&& self._min.z <= self._max.z
    }

    /// `inner` lies inside this box, faces included.
    pub open spec fn encloses(self, inner: AABB) -> bool {
        &&& self._min.x <= inner._min.x && inner._max.x <= self._max.x
        &&& self._min.y <= inner._min.y && inner._max.y <= self._max.y
        &&& self._min.z <= inner._min.z && inner._max.z <= self._max.z
    }

    /// The smallest box around two boxes: on each axis the smaller of the
    /// minimums and the larger of the maximums.
    pub open spec fn union_of(box0: AABB, box1: AABB) -> AABB {
        AABB {
            _min: Vec3 {
                x: spec_fmin(box0._min.x, box1._min.x),
                y: spec_fmin(box0._min.y, box1._min.y),
                z: spec_fmin(box0._min.z, box1._min.z),
            },
            _max: Vec3 {
                x: spec_fmax(box0._max.x, box1._max.x),
                y: spec_fmax(box0._max.y, box1._max.y),
                z: spec_fmax(box0._max.z, box1._max.z),
            },
        }
    }

    pub fn surrounding_box(box0: &AABB, box1: &AABB) -> (b: Self)
        ensures
            b == AABB::union_of(*box0, *box1),
    {
        let small = Point3::new(
            fmin(box0._min.x, box1._min.x),
            fmin(box0._min.y, box1._min.y),
            fmin(box0._min.z, box1._min.z),
        );
        let big = Point3::new(
            fmax(box0._max.x, box1._max.x),
            fmax(box0._max.y, box1._max.y),
            fmax(box0._max.z, box1._max.z),
        );
        Self { _min: small, _max: big }
    }

    /// The span over which the ray is inside the slab of this box on `axis`.
    pub open spec fn span<F: Fn(Scalar, Scalar, Scalar, Scalar) -> Span>(
        self,
        r: Ray,
        axis: int,
        cross: F,
    ) -> Span {
        crossing(cross, self._min.at(axis), self._max.at(axis), r.orig.at(axis), r.dir.at(axis))
    }

    /// Whether the ray is inside the box somewhere on `(t_min, t_max)`: the
    /// latest of `t_min` and the three entries lies strictly before the
    /// earliest of `t_max` and the three exits.
    pub open spec fn hit_spec<F: Fn(Scalar, Scalar, Scalar, Scalar) -> Span>(
        self,
        r: Ray,
        t_min: Scalar,
        t_max: Scalar,
        cross: F,
    ) -> bool {
        let sx = self.span(r, 0, cross);
        let sy = self.span(r, 1, cross);
        let sz = self.span(r, 2, cross);
        spec_fmax(spec_fmax(spec_fmax(t_min, sx.0), sy.0), sz.0) < spec_fmin(
            spec_fmin(spec_fmin(t_max, sx.1), sy.1),
            sz.1,
        )
    }

    /// The slab test. Axis by axis the running interval, `(t_min, t_max)` at
    /// first, is cut down to the span over which the ray is inside the slab
    /// of that axis; the ray misses as soon as the interval is empty.
    ///
    /// `cross(lo, hi, orig, dir)` does the arithmetic for one axis: it
    /// returns the ray parameters at which a ray with origin component `orig`
    /// and direction component `dir` enters and leaves the slab `[lo, hi]`,
    /// entry first. A ray that runs along the slab gets an infinite entry or
    /// exit from it, which the comparisons here absorb.
    pub fn hit<F: Fn(Scalar, Scalar, Scalar, Scalar) -> Span>(
        &self,
        r: &Ray,
        tmin: Scalar,
        tmax: Scalar,
        cross: &F,
    ) -> (res: bool)
        requires
            is_crossing(*cross),
        ensures
            res == self.hit_spec(*r, tmin, tmax, *cross),
    {
        let mut t_enter = tmin;
        let mut t_leave = tmax;
        let mut a: usize = 0;
        while a < 3
            invariant
                a <= 3,
                is_crossing(*cross),
                a == 0 ==> t_enter == tmin && t_leave == tmax,
                a == 1 ==> t_enter == spec_fmax(tmin, self.span(*r, 0, *cross).0) && t_leave
                    == spec_fmin(tmax, self.span(*r, 0, *cross).1),
                a == 2 ==> t_enter == spec_fmax(
                    spec_fmax(tmin, self.span(*r, 0, *cross).0),
                    self.span(*r, 1, *cross).0,
                ) && t_leave == spec_fmin(
                    spec_fmin(tmax, self.span(*r, 0, *cross).1),
                    self.span(*r, 1, *cross).1,
                ),
                a == 3 ==> self.hit_spec(*r, tmin, tmax, *cross),
                a < 3 ==> t_enter < t_leave || a == 0,
            decreases 3 - a,
        {
            let s = cross(self._min.get(a), self._max.get(a), r.orig.get(a), r.dir.get(a));
            assert(s == self.span(*r, a as int, *cross));
            let t0 = if s.0 > t_enter { s.0 } else { t_enter };
            let t1 = if s.1 < t_leave { s.1 } else { t_leave };
            if t1 <= t0 {
                return false;
            }
            t_enter = t0;
            t_leave = t1;
            a = a + 1;
        }
        true
    }
}

/// The union of two boxes encloses both, and any box that encloses both
/// encloses the union.
pub proof fn lemma_union_is_least(box0: AABB, box1: AABB, other: AABB)
    ensures
        AABB::union_of(box0, box1).encloses(box0),
        AABB::union_of(box0, box1).encloses(box1),
        other.encloses(box0) && other.encloses(box1) ==> other.encloses(
            AABB::union_of(box0, box1),
        ),
        box0.well_formed() || box1.well_formed() ==> AABB::union_of(box0, box1).well_formed(),
{
}

/// A ray that passes through a box passes through every box around it,
/// whenever the crossing function is monotone.
pub proof fn lemma_hit_widens<F: Fn(Scalar, Scalar, Scalar, Scalar) -> Span>(
    inner: AABB,
    outer: AABB,
    r: Ray,
    t_min: Scalar,
    t_max: Scalar,
    cross: F,
)
    requires
        is_monotone(cross),
        outer.encloses(inner),
        inner.hit_spec(r, t_min, t_max, cross),
    ensures
        outer.hit_spec(r, t_min, t_max, cross),
{
    assert(outer.span(r, 0, cross).0 <= inner.span(r, 0, cross).0);
    assert(outer.span(r, 1, cross).0 <= inner.span(r, 1, cross).0);
    assert(outer.span(r, 2, cross).0 <= inner.span(r, 2, cross).0);
    assert(inner.span(r, 0, cross).1 <= outer.span(r, 0, cross).1);
    assert(inner.span(r, 1, cross).1 <= outer.span(r, 1, cross).1);
    assert(inner.span(r, 2, cross).1 <= outer.span(r, 2, cross).1);
}

/// The slab test on the union of two boxes succeeds whenever it succeeds on
/// one of them, for a monotone crossing function.
pub proof fn lemma_surrounding_box_hit<F: Fn(Scalar, Scalar, Scalar, Scalar) -> Span>(
    box0: AABB,
    box1: AABB,
    r: Ray,
    t_min: Scalar,
    t_max: Scalar,
    cross: F,
)
    requires
        is_monotone(cross),
        box0.hit_spec(r, t_min, t_max, cross) || box1.hit_spec(r, t_min, t_max, cross),
    ensures
        AABB::union_of(box0, box1).hit_spec(r, t_min, t_max, cross),
{
    lemma_union_is_least(box0, box1, box0);
    if box0.hit_spec(r, t_min, t_max, cross) {
        lemma_hit_widens(box0, AABB::union_of(box0, box1), r, t_min, t_max, cross);
    } else {
        lemma_hit_widens(box1, AABB::union_of(box0, box1), r, t_min, t_max, cross);
    }
}

} // verus!
