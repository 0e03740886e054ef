//! A flat list of geometry, searched object by object.
use vstd::prelude::*;
use std::sync::Arc;
use crate::hittable::hit_t;
use crate::hittable::narrows_to;
use crate::hittable::answers_by_window;
use crate::hittable::HitRecord;
use crate::hittable::HitTable;
use crate::ray::Ray;
use crate::vec3::Point3;
use crate::vec3::Scalar;

verus! {

/// Geometry in the order in which it was added.
pub struct HitTableList<T> {
    pub objects: Vec<Arc<T>>,
}

/// The upper end of the window for the next object: the parameter of the
/// closest intersection so far, or `t_max` while there is none.
pub open spec fn closest_so_far<M>(found: Option<HitRecord<M>>, t_max: Scalar) -> Scalar {
    match found {
        Some(h) => h.t,
        None => t_max,
    }
}

/// What a ray hits in a sequence of objects on `(t_min, t_max)`: the objects
/// are asked in order, each on the window that ends at the closest
/// intersection so far, and the last one that answers is the closest.
pub open spec fn closest_hit<T: HitTable>(
    objects: Seq<Arc<T>>,
    r: Ray,
    t_min: Scalar,
    t_max: Scalar,
) -> Option<HitRecord<T::Mat>>
    decreases objects.len(),
{
    if objects.len() == 0 {
        None
    } else {
        let before = closest_hit(objects.drop_last(), r, t_min, t_max);
        match objects.last().hit_spec(r, t_min, closest_so_far(before, t_max)) {
            Some(h) => Some(h),
            None => before,
        }
    }
}

/// `t` is the parameter of the nearest intersection that any of `objects`
/// reports on `(t_min, t_max)`: some object reports it and none reports a
/// smaller one; or it is `None` and no object reports anything.
pub open spec fn is_nearest<T: HitTable>(
    objects: Seq<Arc<T>>,
    r: Ray,
    t_min: Scalar,
    t_max: Scalar,
    t: Option<Scalar>,
) -> bool {
    match t {
        Some(t) => {
            &&& exists|i: int|
                0 <= i < objects.len() && #[trigger] hit_t(*objects[i], r, t_min, t_max) == Some(t)
            &&& forall|i: int|
                0 <= i < objects.len() ==> (#[trigger] hit_t(*objects[i], r, t_min, t_max)
                    matches Some(other) ==> t <= other)
        },
        None => forall|i: int|
            0 <= i < objects.len() ==> #[trigger] hit_t(*objects[i], r, t_min, t_max) is None,
    }
}

/// Every object of the sequence answers by window for this ray.
pub open spec fn all_answer_by_window<T: HitTable>(
    objects: Seq<Arc<T>>,
    r: Ray,
    t_min: Scalar,
) -> bool {
    forall|i: int| 0 <= i < objects.len() ==> answers_by_window(*#[trigger] objects[i], r, t_min)
}

/// The parameter of a record, if there is one.
pub open spec fn t_of<M>(found: Option<HitRecord<M>>) -> Option<Scalar> {
    match found {
        Some(h) => Some(h.t),
        None => None,
    }
}

impl<T: HitTable> HitTableList<T> {
    /// The empty list.
    pub fn new() -> (list: Self)
        ensures
            list.objects@.len() == 0,
    {
        Self { objects: Vec::new() }
    }

    /// Appends `object`.
    pub fn add(&mut self, object: Arc<T>)
        ensures
            final(self).objects@ == old(self).objects@.push(object),
    {
        self.objects.push(object);
    }

    /// The closest intersection of `r` with any object of the list whose
    /// parameter lies strictly inside `(t_min, t_max)`: every object is
    /// asked, each on the window that the closer answers have left.
    pub fn hit(&self, r: &Ray, t_min: Scalar, t_max: Scalar) -> (rec: Option<HitRecord<T::Mat>>)
        ensures
            rec == closest_hit(self.objects@, *r, t_min, t_max),
    {
        let mut found: Option<HitRecord<T::Mat>> = None;
        let mut closest = t_max;
        let mut i: usize = 0;
        while i < self.objects.len()
            invariant
                i <= self.objects@.len(),
                found == closest_hit(self.objects@.take(i as int), *r, t_min, t_max),
                closest == closest_so_far(found, t_max),
            decreases self.objects@.len() - i,
        {
            assert(self.objects@.take(i + 1).drop_last() == self.objects@.take(i as int));
            match self.objects[i].hit(r, t_min, closest) {
                Some(h) => {
                    closest = h.t;
                    found = Some(h);
                },
                None => {},
            }
            i = i + 1;
        }
        assert(self.objects@.take(i as int) == self.objects@);
        found
    }
}

/// Whether a sphere around `center` that rests on the ground keeps clear
/// of everything in `world`: the signed distance from `center` to no object
/// is below the height `center.y`, which is the radius of such a sphere.
pub fn check<T: HitTable>(world: &HitTableList<T>, center: &Point3) -> (clear: bool)
    ensures
        clear == forall|i: int|
            0 <= i < world.objects@.len() ==> !((#[trigger] world.objects@[i]).distance_spec(
                *center,
            ) < center.y),
{
    let mut i: usize = 0;
    while i < world.objects.len()
        invariant
            i <= world.objects@.len(),
            forall|j: int|
                0 <= j < i ==> !((#[trigger] world.objects@[j]).distance_spec(*center)
                    < center.y),
        decreases world.objects@.len() - i,
    {
        let dis = world.objects[i].distance(center);
        if dis < center.y {
            return false;
        }
        i = i + 1;
    }
    true
}

impl<T: HitTable> Default for HitTableList<T> {
    fn default() -> (list: Self)
        ensures
            list.objects@.len() == 0,
    {
        Self::new()
    }
}

/// Where every object answers by window, the list finds the nearest
/// intersection that any of them reports on the whole window, and that one
/// does not lie behind the window.
pub proof fn lemma_closest_hit_is_nearest<T: HitTable>(
    objects: Seq<Arc<T>>,
    r: Ray,
    t_min: Scalar,
    t_max: Scalar,
)
    requires
        all_answer_by_window(objects, r, t_min),
    ensures
        is_nearest(objects, r, t_min, t_max, t_of(closest_hit(objects, r, t_min, t_max))),
        closest_hit(objects, r, t_min, t_max) matches Some(h) ==> h.t <= t_max,
    decreases objects.len(),
{
    if objects.len() > 0 {
        let front = objects.drop_last();
        assert forall|i: int| 0 <= i < front.len() implies answers_by_window(
            *#[trigger] front[i],
            r,
            t_min,
        ) by {
            assert(front[i] == objects[i]);
        }
        lemma_closest_hit_is_nearest(front, r, t_min, t_max);
        let before = closest_hit(front, r, t_min, t_max);
        let last = seq![objects.last()];
        assert(last[0] == objects[objects.len() - 1]);
        assert(answers_by_window(*last[0], r, t_min));
        assert(front + last == objects);
        let limit = closest_so_far(before, t_max);
        let found = objects.last().hit_spec(r, t_min, limit);
        assert(hit_t(*last[0], r, t_min, limit) == t_of(found));
        assert(is_nearest(last, r, t_min, limit, t_of(found)));
        lemma_nearest_of_both(front, last, r, t_min, t_max, t_of(before), t_of(found));
    }
}

/// Searching a second sequence on the window that the first has left finds
/// the nearest intersection of both together.
pub proof fn lemma_nearest_of_both<T: HitTable>(
    a: Seq<Arc<T>>,
    b: Seq<Arc<T>>,
    r: Ray,
    t_min: Scalar,
    t_max: Scalar,
    ta: Option<Scalar>,
    tb: Option<Scalar>,
)
    requires
        all_answer_by_window(b, r, t_min),
        is_nearest(a, r, t_min, t_max, ta),
        ta matches Some(t) ==> t <= t_max,
        is_nearest(
            b,
            r,
            t_min,
            match ta {
                Some(t) => t,
                None => t_max,
            },
            tb,
        ),
    ensures
        is_nearest(
            a + b,
            r,
            t_min,
            t_max,
            match tb {
                Some(t) => Some(t),
                None => ta,
            },
        ),
        tb matches Some(t) ==> t <= t_max,
{
    let whole = a + b;
    let limit = match ta {
        Some(t) => t,
        None => t_max,
    };
    let both = match tb {
        Some(t) => Some(t),
        None => ta,
    };
    assert forall|i: int| 0 <= i < a.len() implies whole[i] == a[i] by {}
    assert forall|i: int| 0 <= i < b.len() implies whole[i + a.len()] == b[i] by {}
    // How each object of `b` answers on the narrow window, from how it
    // answers on the whole one.
    assert forall|j: int| 0 <= j < b.len() implies narrows_to(
        hit_t(*#[trigger] b[j], r, t_min, t_max),
        hit_t(*b[j], r, t_min, limit),
        limit,
    ) && (hit_t(*b[j], r, t_min, limit) matches Some(t) ==> t <= limit) by {
        assert(answers_by_window(*b[j], r, t_min));
    }
    match both {
        Some(t) => {
            if tb is Some {
                let w = choose|j: int|
                    0 <= j < b.len() && #[trigger] hit_t(*b[j], r, t_min, limit) == Some(t);
                assert(hit_t(*b[w], r, t_min, t_max) == Some(t));
                assert(hit_t(*whole[w + a.len()], r, t_min, t_max) == Some(t));
            } else {
                let w = choose|i: int|
                    0 <= i < a.len() && #[trigger] hit_t(*a[i], r, t_min, t_max) == Some(t);
                assert(hit_t(*whole[w], r, t_min, t_max) == Some(t));
            }
            assert forall|i: int| 0 <= i < whole.len() implies (#[trigger] hit_t(
                *whole[i],
                r,
                t_min,
                t_max,
            ) matches Some(other) ==> t <= other) by {
                if i < a.len() {
                    assert(hit_t(*a[i], r, t_min, t_max) == hit_t(*whole[i], r, t_min, t_max));
                } else {
                    let j = i - a.len();
                    assert(whole[i] == b[j]);
                }
            }
        },
        None => {
            assert forall|i: int| 0 <= i < whole.len() implies #[trigger] hit_t(
                *whole[i],
                r,
                t_min,
                t_max,
            ) is None by {
                if i < a.len() {
                    assert(hit_t(*a[i], r, t_min, t_max) is None);
                } else {
                    let j = i - a.len();
                    assert(whole[i] == b[j]);
                    assert(hit_t(*b[j], r, t_min, limit) is None);
                }
            }
        },
    }
}

} // verus!
