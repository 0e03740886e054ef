//! The bounding-volume hierarchy: a binary tree over geometry in which each
//! node keeps a box around everything beneath it, so that a ray that misses
//! the box need not look at what is inside.
use vstd::prelude::*;
use std::cmp::Ordering;
use std::sync::Arc;
use crate::aabb::is_crossing;
use crate::aabb::is_monotone;
use crate::aabb::lemma_hit_widens;
use crate::aabb::lemma_union_is_least;
use crate::aabb::Span;
use crate::aabb::AABB;
use crate::hittable::answers_by_window;
use crate::hittable::hit_t;
use crate::hittable::HitRecord;
use crate::hittable::HitTable;
use crate::hittablelist::all_answer_by_window;
use crate::hittablelist::closest_hit;
use crate::hittablelist::is_nearest;
use crate::hittablelist::lemma_closest_hit_is_nearest;
use crate::hittablelist::lemma_nearest_of_both;
use crate::hittablelist::t_of;
use crate::ray::Ray;
use crate::rtweekend::random_int;
use crate::vec3::Point3;
use crate::vec3::Scalar;
use crate::vec3::Vec3;
use crate::vec3::ZERO;

verus! {

/// What hangs below a node: a piece of geometry, or another node.
pub enum BVHChild<T> {
    Leaf(Arc<T>),
    Node(Box<BVHNode<T>>),
}

/// A node of the hierarchy: two children, and the box around both.
pub struct BVHNode<T> {
    left: BVHChild<T>,
    right: BVHChild<T>,
    bvhbox: AABB,
}

/// The box with both corners at the origin, which stands in for geometry
/// that reports no box.
pub open spec fn placeholder_box() -> AABB {
    AABB { _min: Vec3::zero_spec(), _max: Vec3::zero_spec() }
}

/// The box that geometry is filed under: its own where it reports one, the
/// placeholder where it does not.
pub open spec fn box_or_placeholder(b: Option<AABB>) -> AABB {
    match b {
        Some(x) => x,
        None => placeholder_box(),
    }
}

/// The box that `obj` is filed under over the time span from `t0` to `t1`.
pub open spec fn filed_box<T: HitTable>(obj: T, t0: Scalar, t1: Scalar) -> AABB {
    box_or_placeholder(obj.box_spec(t0, t1))
}

/// The scalar by which geometry is ordered along `axis`: the minimum corner
/// of its box at time zero.
pub open spec fn axis_key<T: HitTable>(obj: T, axis: usize) -> Scalar {
    filed_box(obj, ZERO, ZERO)._min.at(axis as int)
}

/// The objects at the positions `start..end` of `s`.
pub open spec fn range_of<A>(s: Seq<A>, start: usize, end: usize) -> Seq<A> {
    s.subrange(start as int, end as int)
}

/// Both sequences hold the same objects, whatever the order and however
/// often.
pub open spec fn same_elements<A>(a: Seq<A>, b: Seq<A>) -> bool {
    &&& forall|i: int| 0 <= i < a.len() ==> b.contains(#[trigger] a[i])
    &&& forall|i: int| 0 <= i < b.len() ==> a.contains(#[trigger] b[i])
}

/// The box of `obj` over a time span, or the placeholder.
fn bounds_of<T: HitTable>(obj: &Arc<T>, t0: Scalar, t1: Scalar) -> (b: AABB)
    ensures
        b == filed_box(**obj, t0, t1),
{
    match obj.bounding_box(t0, t1) {
        Some(b) => b,
        None => AABB::new(Point3::zero(), Point3::zero()),
    }
}

/// How two scalars compare.
pub open spec fn ordering_of(a: Scalar, b: Scalar) -> Ordering {
    if a < b {
        Ordering::Less
    } else if a > b {
        Ordering::Greater
    } else {
        Ordering::Equal
    }
}

/// Compares two pieces of geometry by the minimum corner of their boxes
/// along `axis`.
fn box_compare<T: HitTable>(a: &Arc<T>, b: &Arc<T>, axis: usize) -> (o: Ordering)
    ensures
        o == ordering_of(axis_key(**a, axis), axis_key(**b, axis)),
{
    let box_a = bounds_of(a, ZERO, ZERO);
    let box_b = bounds_of(b, ZERO, ZERO);
    let ka = box_a._min.get(axis);
    let kb = box_b._min.get(axis);
    if ka < kb {
        return Ordering::Less;
    } else if ka > kb {
        return Ordering::Greater;
    }
    Ordering::Equal
}

/// Orders two pieces of geometry by the `x` of the minimum corner of their
/// boxes.
pub fn box_x_compare<T: HitTable>(a: &Arc<T>, b: &Arc<T>) -> (o: Ordering)
    ensures
        o == ordering_of(axis_key(**a, 0), axis_key(**b, 0)),
{
    box_compare(a, b, 0)
}

/// Orders two pieces of geometry by the `y` of the minimum corner of their
/// boxes.
pub fn box_y_compare<T: HitTable>(a: &Arc<T>, b: &Arc<T>) -> (o: Ordering)
    ensures
        o == ordering_of(axis_key(**a, 1), axis_key(**b, 1)),
{
    box_compare(a, b, 1)
}

/// Orders two pieces of geometry by the `z` of the minimum corner of their
/// boxes.
pub fn box_z_compare<T: HitTable>(a: &Arc<T>, b: &Arc<T>) -> (o: Ordering)
    ensures
        o == ordering_of(axis_key(**a, 2), axis_key(**b, 2)),
{
    box_compare(a, b, 2)
}

/// Whether `a` lies strictly before `b` along `axis`.
fn comes_first<T: HitTable>(a: &Arc<T>, b: &Arc<T>, axis: usize) -> (first: bool)
    ensures
        first == (axis_key(**a, axis) < axis_key(**b, axis)),
{
    match box_compare(a, b, axis) {
        Ordering::Less => true,
        _ => false,
    }
}

/// `Arc::clone`: one more handle on the same object.
#[verifier::external_body]
fn share<T>(obj: &Arc<T>) -> (other: Arc<T>)
    ensures
        other == *obj,
{
    Arc::clone(obj)
}

/// `[T]::sort_by` on the positions `start..end`, with the comparison along
/// `axis`: the objects of the range are rearranged so that their keys along
/// the axis do not fall from one position to the next, and nothing outside
/// the range moves. The comparison is the order of integer keys, which is
/// total, so the sort has no reason to give up.
#[verifier::external_body]
fn sort_range<T: HitTable>(objects: &mut Vec<Arc<T>>, start: usize, end: usize, axis: usize)
    requires
        start <= end <= old(objects)@.len(),
    ensures
        final(objects)@.len() == old(objects)@.len(),
        forall|i: int|
            0 <= i < start || end <= i < old(objects)@.len() ==> final(objects)@[i] == old(
                objects,
            )@[i],
        range_of(final(objects)@, start, end).to_multiset() == range_of(
            old(objects)@,
            start,
            end,
        ).to_multiset(),
        forall|i: int, j: int|
            start <= i <= j < end ==> axis_key(*final(objects)@[i], axis) <= axis_key(
                *final(objects)@[j],
                axis,
            ),
{
    objects[start..end].sort_by(|a, b| box_compare(a, b, axis));
}

impl<T: HitTable> BVHChild<T> {
    /// The geometry beneath this child, from left to right.
    pub open spec fn leaves(self) -> Seq<Arc<T>>
        decreases self,
    {
        match self {
            BVHChild::Leaf(obj) => seq![obj],
            BVHChild::Node(node) => node.leaves(),
        }
    }

    /// The box that the parent takes for this child over a time span: the
    /// geometry's own box, or the node's.
    pub open spec fn bounds(self, t0: Scalar, t1: Scalar) -> AABB {
        match self {
            BVHChild::Leaf(obj) => filed_box(*obj, t0, t1),
            BVHChild::Node(node) => node.bounds(),
        }
    }

    /// Every node beneath keeps the union of the boxes of its children.
    pub open spec fn well_formed(self, t0: Scalar, t1: Scalar) -> bool
        decreases self,
    {
        match self {
            BVHChild::Leaf(_) => true,
            BVHChild::Node(node) => node.well_formed(t0, t1),
        }
    }

    /// What a ray hits beneath this child: geometry is asked itself, a
    /// node as [`BVHNode::hit_spec`] says.
    pub open spec fn hit_spec<F: Fn(Scalar, Scalar, Scalar, Scalar) -> Span>(
        self,
        r: Ray,
        t_min: Scalar,
        t_max: Scalar,
        cross: F,
    ) -> Option<HitRecord<T::Mat>>
        decreases self, 0int,
    {
        match self {
            BVHChild::Leaf(obj) => obj.hit_spec(r, t_min, t_max),
            BVHChild::Node(node) => node.hit_spec(r, t_min, t_max, cross),
        }
    }

    fn bounding_box(&self, t0: Scalar, t1: Scalar) -> (b: AABB)
        ensures
            b == self.bounds(t0, t1),
    {
        match self {
            BVHChild::Leaf(obj) => bounds_of(obj, t0, t1),
            BVHChild::Node(node) => node.bvhbox,
        }
    }

    fn hit<F: Fn(Scalar, Scalar, Scalar, Scalar) -> Span>(
        &self,
        r: &Ray,
        t_min: Scalar,
        t_max: Scalar,
        cross: &F,
    ) -> (rec: Option<HitRecord<T::Mat>>)
        requires
            is_crossing(*cross),
        ensures
            rec == self.hit_spec(*r, t_min, t_max, *cross),
        decreases self, 0int,
    {
        match self {
            BVHChild::Leaf(obj) => obj.hit(r, t_min, t_max),
            BVHChild::Node(node) => node.hit(r, t_min, t_max, cross),
        }
    }
}

impl<T: HitTable> BVHNode<T> {
    /// The geometry beneath this node, from left to right.
    pub open spec fn leaves(self) -> Seq<Arc<T>>
        decreases self,
    {
        self.left_child().leaves() + self.right_child().leaves()
    }

    /// The box that this node keeps.
    pub closed spec fn bounds(self) -> AABB {
        self.bvhbox
    }

    /// This node and every node beneath it keep exactly the union of the
    /// boxes of their two children, taken over the time span from `t0` to
    /// `t1`.
    pub open spec fn well_formed(self, t0: Scalar, t1: Scalar) -> bool
        decreases self,
    {
        &&& self.bounds() == AABB::union_of(
            self.left_child().bounds(t0, t1),
            self.right_child().bounds(t0, t1),
        )
        &&& self.left_child().well_formed(t0, t1)
        &&& self.right_child().well_formed(t0, t1)
    }

    /// Along `axis` nothing on the left lies after anything on the right.
    pub open spec fn split_along(self, axis: usize) -> bool {
        forall|i: int, j: int|
            0 <= i < self.left_child().leaves().len() && 0 <= j < self.right_child().leaves().len()
                ==> axis_key(*#[trigger] self.left_child().leaves()[i], axis) <= axis_key(
                *#[trigger] self.right_child().leaves()[j],
                axis,
            )
    }

    /// The node is built over `count` objects as [`BVHNode::new`] builds
    /// it. Over one object both children are that object. Over two the
    /// children are the two objects. Over more the children are nodes, the
    /// left one built over half of the objects, rounded down, and the right
    /// one over the rest. In each case there is an axis along which nothing
    /// on the left lies after anything on the right.
    pub open spec fn well_built(self, count: nat) -> bool
        decreases self,
    {
        &&& count >= 1
        &&& exists|axis: usize| axis < 3 && #[trigger] self.split_along(axis)
        &&& if count == 1 {
            self.left_child() is Leaf && self.right_child() == self.left_child()
        } else if count == 2 {
            self.left_child() is Leaf && self.right_child() is Leaf
        } else {
            &&& self.left_child() matches BVHChild::Node(l)
            &&& self.right_child() matches BVHChild::Node(r)
            &&& l.well_built(count / 2)
            &&& r.well_built((count - count / 2) as nat)
        }
    }

    /// How two objects hang under a node, for an axis: `first` on the left
    /// and `second` on the right, unless `second` lies strictly before
    /// `first` along the axis, in which case they change sides.
    pub open spec fn hangs_pair(self, first: Arc<T>, second: Arc<T>, axis: usize) -> bool {
        if axis_key(*second, axis) < axis_key(*first, axis) {
            self.left_child() == BVHChild::Leaf(second) && self.right_child() == BVHChild::Leaf(
                first,
            )
        } else {
            self.left_child() == BVHChild::Leaf(first) && self.right_child() == BVHChild::Leaf(
                second,
            )
        }
    }

    /// The child on the left.
    pub closed spec fn left_child(self) -> BVHChild<T> {
        self.left
    }

    /// The child on the right.
    pub closed spec fn right_child(self) -> BVHChild<T> {
        self.right
    }

    /// The upper end of the window in which the right child is searched:
    /// the parameter of what the left child found, or `t_max` where it
    /// found nothing.
    pub open spec fn limit_after(found: Option<HitRecord<T::Mat>>, t_max: Scalar) -> Scalar {
        match found {
            Some(h) => h.t,
            None => t_max,
        }
    }

    /// What a ray hits beneath this node on `(t_min, t_max)`. A ray that
    /// misses the node's box hits nothing. Otherwise the left child is
    /// searched on the whole window and the right child on the window that
    /// ends at what the left child found; what the right child finds
    /// counts, else what the left child found.
    pub open spec fn hit_spec<F: Fn(Scalar, Scalar, Scalar, Scalar) -> Span>(
        self,
        r: Ray,
        t_min: Scalar,
        t_max: Scalar,
        cross: F,
    ) -> Option<HitRecord<T::Mat>>
        decreases self, 1int,
    {
        if !self.bounds().hit_spec(r, t_min, t_max, cross) {
            None
        } else {
            let hit_left = self.left_child().hit_spec(r, t_min, t_max, cross);
            let hit_right = self.right_child().hit_spec(
                r,
                t_min,
                Self::limit_after(hit_left, t_max),
                cross,
            );
            match hit_right {
                Some(h) => Some(h),
                None => hit_left,
            }
        }
    }

    /// The child on the left.
    pub fn left(&self) -> (child: &BVHChild<T>)
        ensures
            *child == self.left_child(),
    {
        &self.left
    }

    /// The child on the right.
    pub fn right(&self) -> (child: &BVHChild<T>)
        ensures
            *child == self.right_child(),
    {
        &self.right
    }

    /// The box that the node keeps, whatever the time span.
    pub fn bounding_box(&self, _t0: Scalar, _t1: Scalar) -> (b: Option<AABB>)
        ensures
            b == Some(self.bounds()),
    {
        Some(self.bvhbox)
    }

    /// The nearest intersection of `r` with the geometry beneath this node
    /// whose parameter lies strictly inside `(t_min, t_max)`, found as
    /// [`BVHNode::hit_spec`] describes; `cross` does the arithmetic of the
    /// slab test, see [`AABB::hit`].
    pub fn hit<F: Fn(Scalar, Scalar, Scalar, Scalar) -> Span>(
        &self,
        r: &Ray,
        t_min: Scalar,
        t_max: Scalar,
        cross: &F,
    ) -> (rec: Option<HitRecord<T::Mat>>)
        requires
            is_crossing(*cross),
        ensures
            rec == self.hit_spec(*r, t_min, t_max, *cross),
        decreases self, 1int,
    {
        if !self.bvhbox.hit(r, t_min, t_max, cross) {
            return None;
        }
        let hit_left = self.left.hit(r, t_min, t_max, cross);
        let limit = match &hit_left {
            Some(h) => h.t,
            None => t_max,
        };
        let hit_right = self.right.hit(r, t_min, limit, cross);
        match hit_right {
            Some(h) => Some(h),
            None => hit_left,
        }
    }

    /// Joins two children under a node whose box is the union of theirs.
    fn join(left: BVHChild<T>, right: BVHChild<T>, t0: Scalar, t1: Scalar) -> (node: Self)
        requires
            left.well_formed(t0, t1),
            right.well_formed(t0, t1),
        ensures
            node.well_formed(t0, t1),
            node.leaves() == left.leaves() + right.leaves(),
            node.left_child() == left,
            node.right_child() == right,
    {
        let box_left = left.bounding_box(t0, t1);
        let box_right = right.bounding_box(t0, t1);
        BVHNode { left, right, bvhbox: AABB::surrounding_box(&box_left, &box_right) }
    }

    /// Builds the hierarchy over the objects at the positions `start..end`.
    ///
    /// An axis is drawn at random. One object hangs under both sides of its
    /// node. Two objects hang left and right in the order of their keys
    /// along the axis, the first one left where the keys are equal. More
    /// are sorted in place along the axis and split in the middle, and each
    /// half is built in the same way. Each node then takes the union of the
    /// boxes of its two children; geometry without a box counts with the
    /// placeholder.
    ///
    /// The objects of the range are rearranged, none is lost or added, and
    /// nothing outside the range moves. What hangs beneath the node that
    /// comes back is what the range holds.
    pub fn new(
        objects: &mut Vec<Arc<T>>,
        start: usize,
        end: usize,
        time0: Scalar,
        time1: Scalar,
    ) -> (node: Self)
        requires
            start < end <= old(objects)@.len(),
        ensures
            final(objects)@.len() == old(objects)@.len(),
            forall|i: int|
                0 <= i < start || end <= i < old(objects)@.len() ==> final(objects)@[i] == old(
                    objects,
                )@[i],
            range_of(final(objects)@, start, end).to_multiset() == range_of(
                old(objects)@,
                start,
                end,
            ).to_multiset(),
            node.well_formed(time0, time1),
            node.well_built((end - start) as nat),
            same_elements(node.leaves(), range_of(final(objects)@, start, end)),
            same_elements(node.leaves(), range_of(old(objects)@, start, end)),
            end - start <= 2 ==> final(objects)@ == old(objects)@,
            end - start == 1 ==> node.left_child() == BVHChild::Leaf(old(objects)@[start as int])
                && node.right_child() == node.left_child(),
            end - start == 2 ==> exists|axis: usize|
                axis < 3 && #[trigger] node.hangs_pair(
                    old(objects)@[start as int],
                    old(objects)@[start + 1],
                    axis,
                ),
        decreases end - start,
    {
        let axis_drawn = random_int(0, 3);
        let axis: usize = if axis_drawn == 0 {
            0
        } else if axis_drawn == 1 {
            1
        } else {
            2
        };
        let object_span = end - start;
        if object_span == 1 {
            let node = Self::join(
                BVHChild::Leaf(share(&objects[start])),
                BVHChild::Leaf(share(&objects[start])),
                time0,
                time1,
            );
            proof {
                let range = range_of(objects@, start, end);
                assert(range[0] == objects@[start as int]);
                assert(node.leaves()[0] == objects@[start as int]);
                assert(node.leaves()[1] == objects@[start as int]);
                assert(node.split_along(axis));
            }
            node
        } else if object_span == 2 {
            let node = if comes_first(&objects[start + 1], &objects[start], axis) {
                Self::join(
                    BVHChild::Leaf(share(&objects[start + 1])),
                    BVHChild::Leaf(share(&objects[start])),
                    time0,
                    time1,
                )
            } else {
                Self::join(
                    BVHChild::Leaf(share(&objects[start])),
                    BVHChild::Leaf(share(&objects[start + 1])),
                    time0,
                    time1,
                )
            };
            proof {
                let range = range_of(objects@, start, end);
                assert(range[0] == objects@[start as int]);
                assert(range[1] == objects@[start + 1]);
                assert(node.leaves()[0] == range[0] || node.leaves()[0] == range[1]);
                assert(node.leaves()[1] == range[0] || node.leaves()[1] == range[1]);
                assert(node.leaves()[0] == range[0] || node.leaves()[1] == range[0]);
                assert(node.leaves()[0] == range[1] || node.leaves()[1] == range[1]);
                assert(node.split_along(axis));
                assert(node.hangs_pair(objects@[start as int], objects@[start + 1], axis));
            }
            node
        } else {
            sort_range(objects, start, end, axis);
            let mid = start + object_span / 2;
            let ghost sorted = objects@;
            let left = BVHNode::new(objects, start, mid, time0, time1);
            let ghost halfway = objects@;
            let right = BVHNode::new(objects, mid, end, time0, time1);
            let node = Self::join(
                BVHChild::Node(Box::new(left)),
                BVHChild::Node(Box::new(right)),
                time0,
                time1,
            );
            proof {
                assert(range_of(objects@, start, mid) == range_of(halfway, start, mid));
                assert(range_of(halfway, mid, end) == range_of(sorted, mid, end));
                lemma_range_split(objects@, start, mid, end);
                lemma_range_split(sorted, start, mid, end);
                lemma_same_elements_concat(
                    left.leaves(),
                    range_of(objects@, start, mid),
                    right.leaves(),
                    range_of(objects@, mid, end),
                );
                assert forall|i: int, j: int|
                    0 <= i < left.leaves().len() && 0 <= j < right.leaves().len() implies axis_key(
                    *#[trigger] left.leaves()[i],
                    axis,
                ) <= axis_key(*#[trigger] right.leaves()[j], axis) by {
                    lemma_permuted_element(
                        range_of(objects@, start, mid),
                        range_of(sorted, start, mid),
                        left.leaves()[i],
                    );
                    lemma_permuted_element(
                        range_of(objects@, mid, end),
                        range_of(sorted, mid, end),
                        right.leaves()[j],
                    );
                    let a = choose|a: int|
                        0 <= a < mid - start && range_of(sorted, start, mid)[a] == left.leaves()[i];
                    let b = choose|b: int|
                        0 <= b < end - mid && range_of(sorted, mid, end)[b] == right.leaves()[j];
                    assert(sorted[start + a] == left.leaves()[i]);
                    assert(sorted[mid + b] == right.leaves()[j]);
                }
                assert(node.split_along(axis));
                lemma_same_elements_of_permutation(
                    node.leaves(),
                    range_of(objects@, start, end),
                    range_of(old(objects)@, start, end),
                );
            }
            node
        }
    }
}

/// Whenever one of `objects` reports an intersection on a window, the slab
/// test on its box succeeds on that window.
pub open spec fn boxes_are_sound<T: HitTable, F: Fn(Scalar, Scalar, Scalar, Scalar) -> Span>(
    objects: Seq<Arc<T>>,
    r: Ray,
    t_min: Scalar,
    t0: Scalar,
    t1: Scalar,
    cross: F,
) -> bool {
    forall|i: int, t_max: Scalar|
        0 <= i < objects.len() && (#[trigger] hit_t(*objects[i], r, t_min, t_max)) is Some
            ==> filed_box(*objects[i], t0, t1).hit_spec(r, t_min, t_max, cross)
}

/// Containment: the box of a well-formed node encloses the box of every
/// piece of geometry beneath it.
pub proof fn lemma_node_encloses_leaves<T: HitTable>(
    node: BVHNode<T>,
    t0: Scalar,
    t1: Scalar,
    i: int,
)
    requires
        node.well_formed(t0, t1),
        0 <= i < node.leaves().len(),
    ensures
        node.bounds().encloses(filed_box(*node.leaves()[i], t0, t1)),
    decreases node, 1int,
{
    let left = node.left;
    let right = node.right;
    lemma_union_is_least(left.bounds(t0, t1), right.bounds(t0, t1), node.bvhbox);
    if i < left.leaves().len() {
        lemma_child_encloses_leaves(left, t0, t1, i);
    } else {
        lemma_child_encloses_leaves(right, t0, t1, i - left.leaves().len());
    }
}

/// Containment, for a child: the box that stands for it encloses the box of
/// every piece of geometry beneath it.
pub proof fn lemma_child_encloses_leaves<T: HitTable>(
    child: BVHChild<T>,
    t0: Scalar,
    t1: Scalar,
    i: int,
)
    requires
        child.well_formed(t0, t1),
        0 <= i < child.leaves().len(),
    ensures
        child.bounds(t0, t1).encloses(filed_box(*child.leaves()[i], t0, t1)),
    decreases child, 0int,
{
    match child {
        BVHChild::Leaf(obj) => {},
        BVHChild::Node(node) => {
            lemma_node_encloses_leaves(*node, t0, t1, i);
        },
    }
}

/// The parts of a sequence that answers by window, with sound boxes, do so
/// too.
proof fn lemma_parts_behave<T: HitTable, F: Fn(Scalar, Scalar, Scalar, Scalar) -> Span>(
    a: Seq<Arc<T>>,
    b: Seq<Arc<T>>,
    r: Ray,
    t_min: Scalar,
    t0: Scalar,
    t1: Scalar,
    cross: F,
)
    requires
        all_answer_by_window(a + b, r, t_min),
        boxes_are_sound(a + b, r, t_min, t0, t1, cross),
    ensures
        all_answer_by_window(a, r, t_min),
        all_answer_by_window(b, r, t_min),
        boxes_are_sound(a, r, t_min, t0, t1, cross),
        boxes_are_sound(b, r, t_min, t0, t1, cross),
{
    let whole = a + b;
    assert forall|i: int| 0 <= i < a.len() implies answers_by_window(*#[trigger] a[i], r, t_min) by {
        assert(whole[i] == a[i]);
    }
    assert forall|i: int| 0 <= i < b.len() implies answers_by_window(*#[trigger] b[i], r, t_min) by {
        assert(whole[i + a.len()] == b[i]);
    }
    assert forall|i: int, t_max: Scalar|
        0 <= i < a.len() && (#[trigger] hit_t(*a[i], r, t_min, t_max)) is Some implies filed_box(
        *a[i],
        t0,
        t1,
    ).hit_spec(r, t_min, t_max, cross) by {
        assert(whole[i] == a[i]);
        assert(hit_t(*whole[i], r, t_min, t_max) is Some);
    }
    assert forall|i: int, t_max: Scalar|
        0 <= i < b.len() && (#[trigger] hit_t(*b[i], r, t_min, t_max)) is Some implies filed_box(
        *b[i],
        t0,
        t1,
    ).hit_spec(r, t_min, t_max, cross) by {
        assert(whole[i + a.len()] == b[i]);
        assert(hit_t(*whole[i + a.len()], r, t_min, t_max) is Some);
    }
}

/// Where the geometry beneath a well-formed node answers by window and has
/// sound boxes, and the crossing function is monotone, the node finds the
/// nearest intersection that any of that geometry reports on the window.
pub proof fn lemma_node_hit_is_nearest<T: HitTable, F: Fn(Scalar, Scalar, Scalar, Scalar) -> Span>(
    node: BVHNode<T>,
    r: Ray,
    t_min: Scalar,
    t_max: Scalar,
    t0: Scalar,
    t1: Scalar,
    cross: F,
)
    requires
        node.well_formed(t0, t1),
        is_monotone(cross),
        all_answer_by_window(node.leaves(), r, t_min),
        boxes_are_sound(node.leaves(), r, t_min, t0, t1, cross),
    ensures
        is_nearest(node.leaves(), r, t_min, t_max, t_of(node.hit_spec(r, t_min, t_max, cross))),
        node.hit_spec(r, t_min, t_max, cross) matches Some(h) ==> h.t <= t_max,
    decreases node, 1int,
{
    let left = node.left;
    let right = node.right;
    let leaves = node.leaves();
    lemma_parts_behave(left.leaves(), right.leaves(), r, t_min, t0, t1, cross);
    if !node.bvhbox.hit_spec(r, t_min, t_max, cross) {
        assert forall|i: int| 0 <= i < leaves.len() implies #[trigger] hit_t(
            *leaves[i],
            r,
            t_min,
            t_max,
        ) is None by {
            if hit_t(*leaves[i], r, t_min, t_max) is Some {
                lemma_node_encloses_leaves(node, t0, t1, i);
                lemma_hit_widens(
                    filed_box(*leaves[i], t0, t1),
                    node.bvhbox,
                    r,
                    t_min,
                    t_max,
                    cross,
                );
            }
        }
    } else {
        lemma_child_hit_is_nearest(left, r, t_min, t_max, t0, t1, cross);
        let hit_left = left.hit_spec(r, t_min, t_max, cross);
        let limit = BVHNode::<T>::limit_after(hit_left, t_max);
        lemma_child_hit_is_nearest(right, r, t_min, limit, t0, t1, cross);
        let hit_right = right.hit_spec(r, t_min, limit, cross);
        lemma_nearest_of_both(
            left.leaves(),
            right.leaves(),
            r,
            t_min,
            t_max,
            t_of(hit_left),
            t_of(hit_right),
        );
    }
}

/// The same, for a child.
pub proof fn lemma_child_hit_is_nearest<T: HitTable, F: Fn(Scalar, Scalar, Scalar, Scalar) -> Span>(
    child: BVHChild<T>,
    r: Ray,
    t_min: Scalar,
    t_max: Scalar,
    t0: Scalar,
    t1: Scalar,
    cross: F,
)
    requires
        child.well_formed(t0, t1),
        is_monotone(cross),
        all_answer_by_window(child.leaves(), r, t_min),
        boxes_are_sound(child.leaves(), r, t_min, t0, t1, cross),
    ensures
        is_nearest(child.leaves(), r, t_min, t_max, t_of(child.hit_spec(r, t_min, t_max, cross))),
        child.hit_spec(r, t_min, t_max, cross) matches Some(h) ==> h.t <= t_max,
    decreases child, 0int,
{
    match child {
        BVHChild::Leaf(obj) => {
            let leaves = child.leaves();
            assert(leaves[0] == obj);
            assert(answers_by_window(*leaves[0], r, t_min));
            let found = obj.hit_spec(r, t_min, t_max);
            assert(hit_t(*leaves[0], r, t_min, t_max) == t_of(found));
        },
        BVHChild::Node(node) => {
            lemma_node_hit_is_nearest(*node, r, t_min, t_max, t0, t1, cross);
        },
    }
}

/// Two sequences that hold the same objects have the same nearest
/// intersection.
pub proof fn lemma_nearest_is_unique<T: HitTable>(
    a: Seq<Arc<T>>,
    b: Seq<Arc<T>>,
    r: Ray,
    t_min: Scalar,
    t_max: Scalar,
    ta: Option<Scalar>,
    tb: Option<Scalar>,
)
    requires
        same_elements(a, b),
        is_nearest(a, r, t_min, t_max, ta),
        is_nearest(b, r, t_min, t_max, tb),
    ensures
        ta == tb,
{
    if let Some(t) = ta {
        let i = choose|i: int| 0 <= i < a.len() && #[trigger] hit_t(*a[i], r, t_min, t_max) == Some(t);
        assert(b.contains(a[i]));
        let j = choose|j: int| 0 <= j < b.len() && b[j] == a[i];
        assert(hit_t(*b[j], r, t_min, t_max) == Some(t));
    }
    if let Some(t) = tb {
        let j = choose|j: int| 0 <= j < b.len() && #[trigger] hit_t(*b[j], r, t_min, t_max) == Some(t);
        assert(a.contains(b[j]));
        let i = choose|i: int| 0 <= i < a.len() && a[i] == b[j];
        assert(hit_t(*a[i], r, t_min, t_max) == Some(t));
    }
}

/// Equivalence of the hierarchy and the flat list: over the same objects a
/// well-formed node and a list agree on whether the ray hits anything on
/// the window, and on the parameter of the intersection. This holds where
/// the objects answer by window, the slab test on the box of an object
/// succeeds whenever the object itself is hit, and the crossing function is
/// monotone.
pub proof fn lemma_node_agrees_with_list<T: HitTable, F: Fn(Scalar, Scalar, Scalar, Scalar) -> Span>(
    node: BVHNode<T>,
    objects: Seq<Arc<T>>,
    r: Ray,
    t_min: Scalar,
    t_max: Scalar,
    t0: Scalar,
    t1: Scalar,
    cross: F,
)
    requires
        node.well_formed(t0, t1),
        same_elements(node.leaves(), objects),
        is_monotone(cross),
        all_answer_by_window(objects, r, t_min),
        boxes_are_sound(objects, r, t_min, t0, t1, cross),
    ensures
        t_of(node.hit_spec(r, t_min, t_max, cross)) == t_of(
            closest_hit(objects, r, t_min, t_max),
        ),
{
    let leaves = node.leaves();
    assert forall|i: int| 0 <= i < leaves.len() implies answers_by_window(
        *#[trigger] leaves[i],
        r,
        t_min,
    ) by {
        assert(objects.contains(leaves[i]));
        let j = choose|j: int| 0 <= j < objects.len() && objects[j] == leaves[i];
        assert(answers_by_window(*objects[j], r, t_min));
    }
    assert forall|i: int, limit: Scalar|
        0 <= i < leaves.len() && (#[trigger] hit_t(*leaves[i], r, t_min, limit)) is Some
        implies filed_box(*leaves[i], t0, t1).hit_spec(r, t_min, limit, cross) by {
        assert(objects.contains(leaves[i]));
        let j = choose|j: int| 0 <= j < objects.len() && objects[j] == leaves[i];
        assert(hit_t(*objects[j], r, t_min, limit) is Some);
    }
    lemma_node_hit_is_nearest(node, r, t_min, t_max, t0, t1, cross);
    lemma_closest_hit_is_nearest(objects, r, t_min, t_max);
    lemma_nearest_is_unique(
        leaves,
        objects,
        r,
        t_min,
        t_max,
        t_of(node.hit_spec(r, t_min, t_max, cross)),
        t_of(closest_hit(objects, r, t_min, t_max)),
    );
}

/// What holds the same objects as a sequence holds the same objects as
/// every rearrangement of that sequence.
proof fn lemma_same_elements_of_permutation<A>(a: Seq<A>, b: Seq<A>, c: Seq<A>)
    requires
        same_elements(a, b),
        b.to_multiset() == c.to_multiset(),
    ensures
        same_elements(a, c),
{
    assert forall|i: int| 0 <= i < a.len() implies c.contains(#[trigger] a[i]) by {
        lemma_permuted_element(b, c, a[i]);
    }
    assert forall|i: int| 0 <= i < c.len() implies a.contains(#[trigger] c[i]) by {
        lemma_permuted_element(c, b, c[i]);
        let j = choose|j: int| 0 <= j < b.len() && b[j] == c[i];
        assert(a.contains(b[j]));
    }
}

/// What one of two sequences with the same multiset holds, the other holds
/// too.
proof fn lemma_permuted_element<A>(a: Seq<A>, b: Seq<A>, x: A)
    requires
        a.to_multiset() == b.to_multiset(),
        a.contains(x),
    ensures
        b.contains(x),
{
    a.to_multiset_ensures();
    b.to_multiset_ensures();
    assert(a.to_multiset().count(x) > 0);
    assert(b.to_multiset().count(x) > 0);
}

/// A range is its two halves one after the other, as a sequence and as a
/// multiset.
proof fn lemma_range_split<A>(s: Seq<A>, start: usize, mid: usize, end: usize)
    requires
        start <= mid <= end <= s.len(),
    ensures
        range_of(s, start, end) == range_of(s, start, mid) + range_of(s, mid, end),
        range_of(s, start, end).to_multiset() == range_of(s, start, mid).to_multiset().add(
            range_of(s, mid, end).to_multiset(),
        ),
{
    assert(range_of(s, start, end) =~= range_of(s, start, mid) + range_of(s, mid, end));
    vstd::seq_lib::lemma_multiset_commutative(range_of(s, start, mid), range_of(s, mid, end));
}

/// Sequences that hold the same objects pair by pair hold the same objects
/// when joined.
proof fn lemma_same_elements_concat<A>(a1: Seq<A>, b1: Seq<A>, a2: Seq<A>, b2: Seq<A>)
    requires
        same_elements(a1, b1),
        same_elements(a2, b2),
    ensures
        same_elements(a1 + a2, b1 + b2),
{
    assert forall|i: int| 0 <= i < (a1 + a2).len() implies (b1 + b2).contains(
        #[trigger] (a1 + a2)[i],
    ) by {
        if i < a1.len() {
            let j = choose|j: int| 0 <= j < b1.len() && b1[j] == a1[i];
            assert((b1 + b2)[j] == a1[i]);
        } else {
            let j = choose|j: int| 0 <= j < b2.len() && b2[j] == a2[i - a1.len()];
            assert((b1 + b2)[j + b1.len()] == a2[i - a1.len()]);
        }
    }
    assert forall|i: int| 0 <= i < (b1 + b2).len() implies (a1 + a2).contains(
        #[trigger] (b1 + b2)[i],
    ) by {
        if i < b1.len() {
            let j = choose|j: int| 0 <= j < a1.len() && a1[j] == b1[i];
            assert((a1 + a2)[j] == b1[i]);
        } else {
            let j = choose|j: int| 0 <= j < a2.len() && a2[j] == b2[i - b1.len()];
            assert((a1 + a2)[j + a1.len()] == b2[i - b1.len()]);
        }
    }
}

} // verus!
