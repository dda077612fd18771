use crate::aabb::lemma_spans_itself;
use crate::aabb::lemma_spans_merged;
use crate::aabb::lemma_spans_same;
use crate::aabb::lemma_union_spans;
use crate::aabb::union_of;
use crate::aabb::crossed;
use crate::aabb::Slab;
use crate::aabb::AABB;
use crate::hittable::HitRecord;
use crate::ray::Ray;
use crate::hittable::share;
use crate::hittable::Hittable;
use crate::scalar::Scalar;
use core::cmp::Ordering;
use rand::Rng;
use std::sync::Arc;
use vstd::prelude::*;

verus! {

/// What hangs below a node of the hierarchy: one of the objects it was built
/// over, or a further node.
pub enum BVHChild<H> {
    Item(Arc<H>),
    Node(Box<BVHNode<H>>),
}

/// A node of a bounding-volume hierarchy: two children and the union of
/// their boxes.
pub struct BVHNode<H> {
    pub left: BVHChild<H>,
    pub right: BVHChild<H>,
    pub aabb: AABB,
}

/// The number by which an object is sorted on `axis`: the minimum of its
/// bounding box at time zero.
pub open spec fn sort_key<H: Hittable>(h: H, axis: usize) -> Scalar {
    h.bounds(Scalar { bits: 0 }, Scalar { bits: 0 }, AABB::default_box()).unwrap().minimum.at(
        axis as int,
    )
}

/// `order` lists the numbers below `n`, each once, and `place` says where in
/// `order` each of them stands.
pub open spec fn rearranges(order: Seq<usize>, place: Seq<int>, n: int) -> bool {
    &&& order.len() == n
    &&& place.len() == n
    &&& forall|i: int| 0 <= i < n ==> 0 <= #[trigger] order[i] < n && place[order[i] as int] == i
    &&& forall|j: int| 0 <= j < n ==> 0 <= #[trigger] place[j] < n && order[place[j]] == j
}

/// The sort key of the object at index `i`.
pub open spec fn key_at<H: Hittable>(objects: Seq<Arc<H>>, i: usize, axis: usize) -> Scalar {
    sort_key(*objects[i as int], axis)
}

/// The object that `order` names at position `i` has no smaller sort key
/// than the one it names next.
pub open spec fn in_order<H: Hittable>(
    objects: Seq<Arc<H>>,
    order: Seq<usize>,
    axis: usize,
    i: int,
) -> bool {
    !key_at(objects, order[i], axis).less(key_at(objects, order[i + 1], axis))
}

/// Taken in `order`, no object's sort key is less than that of the next.
pub open spec fn descending<H: Hittable>(
    objects: Seq<Arc<H>>,
    order: Seq<usize>,
    axis: usize,
) -> bool {
    forall|i: int| 0 <= i < order.len() - 1 ==> #[trigger] in_order(objects, order, axis, i)
}

/// Every object has a bounding box, at the times given and at time zero.
pub open spec fn has_boxes<H: Hittable>(objects: Seq<Arc<H>>, time0: Scalar, time1: Scalar) -> bool {
    forall|i: int|
        0 <= i < objects.len() ==> {
            &&& (#[trigger] objects[i]).bounds(time0, time1, AABB::default_box()) is Some
            &&& objects[i].bounds(Scalar { bits: 0 }, Scalar { bits: 0 }, AABB::default_box())
                is Some
        }
}

/// The objects that `order` names at the positions from `from` up to `to`.
pub open spec fn picked<H>(objects: Seq<Arc<H>>, order: Seq<usize>, from: int, to: int) -> Seq<
    Arc<H>,
> {
    Seq::new((to - from) as nat, |i: int| objects[order[from + i] as int])
}

/// `order` is a way to sort `objects` on `axis`.
pub open spec fn sorts<H: Hittable>(
    objects: Seq<Arc<H>>,
    axis: usize,
    order: Seq<usize>,
    place: Seq<int>,
) -> bool {
    &&& axis < 3
    &&& rearranges(order, place, objects.len() as int)
    &&& descending(objects, order, axis)
}

/// The two children of a node over two objects, split on `axis`: the first
/// object goes left where its sort key is less than the second's, else
/// right.
pub open spec fn pairs<H: Hittable>(
    first: Arc<H>,
    second: Arc<H>,
    axis: usize,
    left: BVHChild<H>,
    right: BVHChild<H>,
) -> bool {
    &&& axis < 3
    &&& if sort_key(*first, axis).less(sort_key(*second, axis)) {
        left == BVHChild::Item(first) && right == BVHChild::Item(second)
    } else {
        left == BVHChild::Item(second) && right == BVHChild::Item(first)
    }
}

/// The distance beyond which nothing is accepted once `found` is known.
pub open spec fn t_max_after<M>(found: Option<HitRecord<M>>, t_max: Scalar) -> Scalar {
    match found {
        Some(record) => record.t,
        None => t_max,
    }
}

/// Of what two queries found, one after the other, the second counts where
/// it found anything, else the first.
pub open spec fn later_wins<M>(
    first: Option<HitRecord<M>>,
    second: Option<HitRecord<M>>,
    out: Option<HitRecord<M>>,
) -> bool {
    out == (if second is Some {
        second
    } else {
        first
    })
}

/// The record as it stands once `found` is known.
pub open spec fn record_after<M>(found: Option<HitRecord<M>>, before: HitRecord<M>) -> HitRecord<
    M,
> {
    match found {
        Some(record) => record,
        None => before,
    }
}

impl<H: Hittable> BVHChild<H> {
    /// The child's bounding box, if it has one.
    pub open spec fn bounds(self, time0: Scalar, time1: Scalar) -> Option<AABB> {
        match self {
            BVHChild::Item(h) => h.bounds(time0, time1, AABB::default_box()),
            BVHChild::Node(n) => Some(n.aabb),
        }
    }

    /// The objects below the child, from left to right.
    pub open spec fn leaves(self) -> Seq<Arc<H>>
        decreases self,
    {
        match self {
            BVHChild::Item(h) => seq![h],
            BVHChild::Node(n) => n.leaves(),
        }
    }

    /// Whether `out` is what a query of the child may report, where `probe`
    /// tells how the ray meets a box.
    pub open spec fn reports<P: Fn(&AABB) -> [Slab; 3]>(
        self,
        probe: P,
        ray: Ray,
        t_min: Scalar,
        t_max: Scalar,
        before: HitRecord<H::Mat>,
        out: Option<HitRecord<H::Mat>>,
    ) -> bool
        decreases self, 0int,
    {
        match self {
            BVHChild::Item(h) => out == h.found(ray, t_min, t_max, before),
            BVHChild::Node(n) => n.reports(probe, ray, t_min, t_max, before, out),
        }
    }

    fn hit<P: Fn(&AABB) -> [Slab; 3]>(
        &self,
        probe: &P,
        ray: &Ray,
        t_min: Scalar,
        t_max: Scalar,
        record: &mut HitRecord<H::Mat>,
    ) -> (b: bool)
        requires
            forall|a: &AABB| call_requires(*probe, (a,)),
        ensures
            self.reports(
                *probe,
                *ray,
                t_min,
                t_max,
                *old(record),
                if b {
                    Some(*final(record))
                } else {
                    None
                },
            ),
            !b ==> *final(record) == *old(record),
        decreases self,
    {
        match self {
            BVHChild::Item(h) => h.hit(ray, t_min, t_max, record),
            BVHChild::Node(n) => n.hit(probe, ray, t_min, t_max, record),
        }
    }

    fn bounding_box(&self, time0: Scalar, time1: Scalar, output_box: &mut AABB) -> (b: bool)
        requires
            *old(output_box) == AABB::default_box(),
        ensures
            b == self.bounds(time0, time1).is_some(),
            b ==> *final(output_box) == self.bounds(time0, time1).unwrap(),
    {
        match self {
            BVHChild::Item(h) => h.bounding_box(time0, time1, output_box),
            BVHChild::Node(n) => n.bounding_box(time0, time1, output_box),
        }
    }
}

/// A tree that `BVHNode::new` may build over `objects`, whatever axes it
/// draws.
///
/// Over one object both children are that object. Over two, the objects are
/// split on some axis. Over more, the objects are sorted on some axis, no sort
/// key less than the next, and split in the middle; the first half is built
/// into the left child and the rest into the right child. In each case the
/// node's box is the union of its children's boxes.
pub open spec fn built<H: Hittable>(
    objects: Seq<Arc<H>>,
    time0: Scalar,
    time1: Scalar,
    node: BVHNode<H>,
) -> bool
    decreases objects.len(),
{
    let n = objects.len() as int;
    &&& n >= 1
    &&& node.left.bounds(time0, time1) is Some
    &&& node.right.bounds(time0, time1) is Some
    &&& node.aabb == node.left.bounds(time0, time1).unwrap().merged(
        node.right.bounds(time0, time1).unwrap(),
    )
    &&& if n == 1 {
        node.left == BVHChild::Item(objects[0]) && node.right == BVHChild::Item(objects[0])
    } else if n == 2 {
        exists|axis: usize| #[trigger] pairs(objects[0], objects[1], axis, node.left, node.right)
    } else {
        exists|axis: usize, order: Seq<usize>, place: Seq<int>|
            {
                &&& #[trigger] sorts(objects, axis, order, place)
                &&& node.left matches BVHChild::Node(l)
                &&& node.right matches BVHChild::Node(r)
                &&& built(picked(objects, order, 0, n / 2), time0, time1, *l)
                &&& built(picked(objects, order, n / 2, n), time0, time1, *r)
            }
    }
}

impl<H: Hittable> BVHNode<H> {
    /// The objects below the node, from left to right.
    pub open spec fn leaves(self) -> Seq<Arc<H>>
        decreases self,
    {
        self.left.leaves() + self.right.leaves()
    }

    /// Whether `out` is what a query of the node may report, where `probe`
    /// tells how the ray meets a box: nothing where the ray misses the
    /// node's box, else what the children report.
    pub open spec fn reports<P: Fn(&AABB) -> [Slab; 3]>(
        self,
        probe: P,
        ray: Ray,
        t_min: Scalar,
        t_max: Scalar,
        before: HitRecord<H::Mat>,
        out: Option<HitRecord<H::Mat>>,
    ) -> bool
        decreases self, 1int,
    {
        exists|slabs: [Slab; 3]|
            {
                &&& #[trigger] call_ensures(probe, (&self.aabb,), slabs)
                &&& if crossed(slabs, self.aabb.flat(), t_min, t_max) {
                    self.reports_below(probe, ray, t_min, t_max, before, out)
                } else {
                    out is None
                }
            }
    }

    /// Whether `out` is what the two children may report between them. The
    /// left child is asked first; the right child is asked only for hits
    /// that are no farther than what the left child found, and what it
    /// finds replaces the record.
    pub open spec fn reports_below<P: Fn(&AABB) -> [Slab; 3]>(
        self,
        probe: P,
        ray: Ray,
        t_min: Scalar,
        t_max: Scalar,
        before: HitRecord<H::Mat>,
        out: Option<HitRecord<H::Mat>>,
    ) -> bool
        decreases self, 0int,
    {
        exists|l: Option<HitRecord<H::Mat>>, r: Option<HitRecord<H::Mat>>|
            {
                &&& #[trigger] later_wins(l, r, out)
                &&& self.left.reports(probe, ray, t_min, t_max, before, l)
                &&& self.right.reports(
                    probe,
                    ray,
                    t_min,
                    t_max_after(l, t_max),
                    record_after(l, before),
                    r,
                )
            }
    }

    /// Whether the ray that `probe` stands for hits anything below the node
    /// between `t_min` and `t_max`. On a hit the record is that of the
    /// nearest hit.
    pub fn hit<P: Fn(&AABB) -> [Slab; 3]>(
        &self,
        probe: &P,
        ray: &Ray,
        t_min: Scalar,
        t_max: Scalar,
        record: &mut HitRecord<H::Mat>,
    ) -> (b: bool)
        requires
            forall|a: &AABB| call_requires(*probe, (a,)),
        ensures
            self.reports(
                *probe,
                *ray,
                t_min,
                t_max,
                *old(record),
                if b {
                    Some(*final(record))
                } else {
                    None
                },
            ),
            !b ==> *final(record) == *old(record),
        decreases self,
    {
        if !self.aabb.hit(probe, t_min, t_max) {
            return false;
        }
        let ghost slabs = choose|slabs: [Slab; 3]| #[trigger]
            call_ensures(*probe, (&self.aabb,), slabs) && crossed(slabs, self.aabb.flat(), t_min, t_max);
        let hit_left = self.left.hit(probe, ray, t_min, t_max, record);
        let ghost l = if hit_left {
            Some(*record)
        } else {
            None
        };
        let t_max_right = if hit_left {
            record.t
        } else {
            t_max
        };
        let ghost mid = *record;
        let hit_right = self.right.hit(probe, ray, t_min, t_max_right, record);
        proof {
            let r = if hit_right {
                Some(*record)
            } else {
                None
            };
            let out = if hit_left || hit_right {
                Some(*record)
            } else {
                None
            };
            assert(mid == record_after(l, *old(record)));
            assert(self.left.reports(*probe, *ray, t_min, t_max, *old(record), l));
            assert(t_max_right == t_max_after(l, t_max));
            assert(self.right.reports(
                *probe,
                *ray,
                t_min,
                t_max_after(l, t_max),
                record_after(l, *old(record)),
                r,
            ));
            assert(out == (if r is Some {
                r
            } else {
                l
            }));
            assert(later_wins(l, r, out));
            assert(call_ensures(*probe, (&self.aabb,), slabs));
            assert(self.reports(*probe, *ray, t_min, t_max, *old(record), out));
        }
        hit_left || hit_right
    }

    /// Builds the hierarchy over `objects`. Each node splits its objects on
    /// an axis drawn at random.
    pub fn new(objects: &[Arc<H>], time0: Scalar, time1: Scalar) -> (r: BVHNode<H>)
        requires
            objects@.len() > 0,
            has_boxes(objects@, time0, time1),
        ensures
            built(objects@, time0, time1, r),
        decreases objects@.len(),
    {
        let axis = random_below(3);
        let size = objects.len();
        let left;
        let right;
        if size == 1 {
            left = BVHChild::Item(share(&objects[0]));
            right = BVHChild::Item(share(&objects[0]));
        } else if size == 2 {
            if comes_after(objects, 0, 1, axis) {
                left = BVHChild::Item(share(&objects[0]));
                right = BVHChild::Item(share(&objects[1]));
            } else {
                left = BVHChild::Item(share(&objects[1]));
                right = BVHChild::Item(share(&objects[0]));
            }
            assert(pairs(objects@[0], objects@[1], axis, left, right));
        } else {
            let (order, Ghost(place)) = sort_order(objects, axis);
            let mid = size / 2;
            let first = gather(objects, &order, 0, mid);
            let second = gather(objects, &order, mid, size);
            assert(has_boxes(first@, time0, time1));
            assert(has_boxes(second@, time0, time1));
            let l = BVHNode::new(first.as_slice(), time0, time1);
            let r = BVHNode::new(second.as_slice(), time0, time1);
            left = BVHChild::Node(Box::new(l));
            right = BVHChild::Node(Box::new(r));
            assert(sorts(objects@, axis, order@, place));
        }
        let mut box_left = AABB::default();
        let mut box_right = AABB::default();
        let has_box_a = left.bounding_box(time0, time1, &mut box_left);
        let has_box_b = right.bounding_box(time0, time1, &mut box_right);
        assert(has_box_a && has_box_b);
        let aabb = box_left & box_right;
        BVHNode { left, right, aabb }
    }

    pub fn bounding_box(&self, _time0: Scalar, _time1: Scalar, output_box: &mut AABB) -> (b: bool)
        ensures
            b,
            *final(output_box) == self.aabb,
    {
        *output_box = self.aabb;
        true
    }
}

/// Whether, in the sort on `axis`, the object at `i` has to come after the
/// one at `j`.
fn comes_after<H: Hittable>(objects: &[Arc<H>], i: usize, j: usize, axis: usize) -> (r: bool)
    requires
        axis < 3,
        i < objects@.len(),
        j < objects@.len(),
        has_boxes(objects@, Scalar { bits: 0 }, Scalar { bits: 0 }),
    ensures
        r == key_at(objects@, i, axis).less(key_at(objects@, j, axis)),
{
    match box_compare(&objects[i], &objects[j], axis) {
        Ordering::Greater => true,
        _ => false,
    }
}

/// Sorts the indices of `objects` on `axis`, by insertion: each index moves
/// towards the front past those that have to come after it.
fn sort_order<H: Hittable>(objects: &[Arc<H>], axis: usize) -> (r: (Vec<usize>, Ghost<Seq<int>>))
    requires
        axis < 3,
        has_boxes(objects@, Scalar { bits: 0 }, Scalar { bits: 0 }),
    ensures
        sorts(objects@, axis, r.0@, r.1@),
{
    let n = objects.len();
    let mut order: Vec<usize> = Vec::new();
    let mut i: usize = 0;
    while i < n
        invariant
            i <= n,
            order@.len() == i,
            forall|k: int| 0 <= k < i ==> #[trigger] order@[k] == k,
        decreases n - i,
    {
        order.push(i);
        i = i + 1;
    }
    let ghost mut place: Seq<int> = Seq::new(n as nat, |j: int| j);
    let mut k: usize = 1;
    while k < n
        invariant
            n == objects@.len(),
            axis < 3,
            has_boxes(objects@, Scalar { bits: 0 }, Scalar { bits: 0 }),
            1 <= k,
            rearranges(order@, place, n as int),
            forall|i: int| 0 <= i < k - 1 && i < n - 1 ==> #[trigger] in_order(objects@, order@, axis, i),
        decreases n - k,
    {
        let mut j: usize = k;
        let mut moving = true;
        while j > 0 && moving
            invariant
                n == objects@.len(),
                axis < 3,
                has_boxes(objects@, Scalar { bits: 0 }, Scalar { bits: 0 }),
                j <= k < n,
                rearranges(order@, place, n as int),
                forall|i: int|
                    0 <= i < k && i != j && i + 1 != j ==> #[trigger] in_order(
                        objects@,
                        order@,
                        axis,
                        i,
                    ),
                j < k ==> in_order(objects@, order@, axis, j as int),
                0 < j < k ==> !key_at(objects@, order@[j - 1], axis).less(
                    key_at(objects@, order@[j + 1], axis),
                ),
                !moving && j > 0 ==> in_order(objects@, order@, axis, j - 1),
            decreases j + (if moving { 1int } else { 0int }),
        {
            let a = order[j - 1];
            let b = order[j];
            if comes_after(objects, a, b, axis) {
                let ghost before = order@;
                order.set(j - 1, b);
                order.set(j, a);
                proof {
                    place = place.update(a as int, j as int).update(b as int, j - 1);
                    if j >= 2 {
                        assert(in_order(objects@, before, axis, j - 2));
                    }
                    assert forall|i: int|
                        0 <= i < k && i != j - 1 && i + 1 != j - 1 implies #[trigger] in_order(
                        objects@,
                        order@,
                        axis,
                        i,
                    ) by {
                        if i == j {
                            assert(order@[i] == before[j - 1]);
                            assert(order@[i + 1] == before[j + 1]);
                        } else {
                            assert(in_order(objects@, before, axis, i));
                        }
                    }
                }
                j = j - 1;
            } else {
                moving = false;
            }
        }
        k = k + 1;
    }
    (order, Ghost(place))
}

/// The handles that `order` names at the positions from `from` up to `to`.
fn gather<H>(objects: &[Arc<H>], order: &Vec<usize>, from: usize, to: usize) -> (r: Vec<Arc<H>>)
    requires
        from <= to <= order@.len(),
        forall|i: int| 0 <= i < order@.len() ==> #[trigger] order@[i] < objects@.len(),
    ensures
        r@ == picked(objects@, order@, from as int, to as int),
{
    let mut out: Vec<Arc<H>> = Vec::new();
    let mut i: usize = from;
    while i < to
        invariant
            from <= i <= to <= order@.len(),
            forall|i: int| 0 <= i < order@.len() ==> #[trigger] order@[i] < objects@.len(),
            out@ == picked(objects@, order@, from as int, i as int),
        decreases to - i,
    {
        out.push(share(&objects[order[i]]));
        i = i + 1;
    }
    out
}

/// The bounding boxes of `objects`, in their order.
pub open spec fn boxes_of<H: Hittable>(objects: Seq<Arc<H>>, time0: Scalar, time1: Scalar) -> Seq<
    AABB,
> {
    Seq::new(objects.len(), |i: int| objects[i].bounds(time0, time1, AABB::default_box()).unwrap())
}

/// Every object's bounding box is a box of numbers.
pub open spec fn numeric_boxes<H: Hittable>(
    objects: Seq<Arc<H>>,
    time0: Scalar,
    time1: Scalar,
) -> bool {
    forall|i: int|
        0 <= i < objects.len() ==> (#[trigger] objects[i]).bounds(
            time0,
            time1,
            AABB::default_box(),
        ).unwrap().numeric()
}

/// The box of a built tree spans the boxes of the objects it was built over.
#[verifier::rlimit(40)]
pub proof fn lemma_built_spans<H: Hittable>(
    objects: Seq<Arc<H>>,
    time0: Scalar,
    time1: Scalar,
    node: BVHNode<H>,
)
    requires
        built(objects, time0, time1, node),
        numeric_boxes(objects, time0, time1),
    ensures
        node.aabb.spans(boxes_of(objects, time0, time1)),
    decreases objects.len(),
{
    let n = objects.len() as int;
    let boxes = boxes_of(objects, time0, time1);
    let lb = node.left.bounds(time0, time1).unwrap();
    let rb = node.right.bounds(time0, time1).unwrap();
    if n <= 2 {
        let first = seq![lb];
        let second = seq![rb];
        assert(first[0] == lb && second[0] == rb);
        assert(boxes[0].numeric());
        if n == 1 {
            assert(lb == boxes[0] && rb == boxes[0]);
        } else {
            let axis = choose|axis: usize| #[trigger]
                pairs(objects[0], objects[1], axis, node.left, node.right);
            assert(boxes[1].numeric());
            assert((lb == boxes[0] && rb == boxes[1]) || (lb == boxes[1] && rb == boxes[0]));
        }
        lemma_spans_itself(lb);
        lemma_spans_itself(rb);
        assert forall|i: int| 0 <= i < boxes.len() implies first.contains(#[trigger] boxes[i])
            || second.contains(boxes[i]) by {
            if boxes[i] == lb {
                assert(first[0] == boxes[i]);
            } else {
                assert(second[0] == boxes[i]);
            }
        }
        assert forall|i: int| 0 <= i < first.len() implies boxes.contains(#[trigger] first[i]) by {
            if lb == boxes[0] {
                assert(boxes[0] == first[i]);
            } else {
                assert(boxes[1] == first[i]);
            }
        }
        assert forall|i: int| 0 <= i < second.len() implies boxes.contains(
            #[trigger] second[i],
        ) by {
            if rb == boxes[0] {
                assert(boxes[0] == second[i]);
            } else {
                assert(boxes[1] == second[i]);
            }
        }
        lemma_spans_merged(lb, rb, first, second, boxes);
    } else {
        let (axis, order, place) = choose|axis: usize, order: Seq<usize>, place: Seq<int>|
            {
                &&& #[trigger] sorts(objects, axis, order, place)
                &&& node.left matches BVHChild::Node(l)
                &&& node.right matches BVHChild::Node(r)
                &&& built(picked(objects, order, 0, n / 2), time0, time1, *l)
                &&& built(picked(objects, order, n / 2, n), time0, time1, *r)
            };
        let mid = n / 2;
        let first = picked(objects, order, 0, mid);
        let second = picked(objects, order, mid, n);
        let l = node.left->Node_0;
        let r = node.right->Node_0;
        assert(numeric_boxes(first, time0, time1)) by {
            assert forall|i: int| 0 <= i < first.len() implies (#[trigger] first[i]).bounds(
                time0,
                time1,
                AABB::default_box(),
            ).unwrap().numeric() by {
                assert(first[i] == objects[order[i] as int]);
            }
        }
        assert(numeric_boxes(second, time0, time1)) by {
            assert forall|i: int| 0 <= i < second.len() implies (#[trigger] second[i]).bounds(
                time0,
                time1,
                AABB::default_box(),
            ).unwrap().numeric() by {
                assert(second[i] == objects[order[mid + i] as int]);
            }
        }
        lemma_built_spans(first, time0, time1, *l);
        lemma_built_spans(second, time0, time1, *r);
        let fb = boxes_of(first, time0, time1);
        let sb = boxes_of(second, time0, time1);
        assert forall|j: int| 0 <= j < boxes.len() implies fb.contains(#[trigger] boxes[j])
            || sb.contains(boxes[j]) by {
            let p = place[j];
            assert(order[p] == j);
            if p < mid {
                assert(fb[p] == boxes[j]);
            } else {
                assert(sb[p - mid] == boxes[j]);
            }
        }
        assert forall|i: int| 0 <= i < fb.len() implies boxes.contains(#[trigger] fb[i]) by {
            assert(boxes[order[i] as int] == fb[i]);
        }
        assert forall|i: int| 0 <= i < sb.len() implies boxes.contains(#[trigger] sb[i]) by {
            assert(boxes[order[mid + i] as int] == sb[i]);
        }
        lemma_spans_merged(lb, rb, fb, sb, boxes);
    }
}

/// Whatever axes were drawn, the box at the root of a built tree is the
/// union of the boxes of the objects: it holds the same numbers as the boxes
/// merged in their order.
pub proof fn lemma_root_box_is_union<H: Hittable>(
    objects: Seq<Arc<H>>,
    time0: Scalar,
    time1: Scalar,
    node: BVHNode<H>,
)
    requires
        built(objects, time0, time1, node),
        numeric_boxes(objects, time0, time1),
    ensures
        node.aabb.same(union_of(boxes_of(objects, time0, time1))),
{
    let boxes = boxes_of(objects, time0, time1);
    lemma_built_spans(objects, time0, time1, node);
    assert forall|i: int| 0 <= i < boxes.len() implies (#[trigger] boxes[i]).numeric() by {
        assert(objects[i].bounds(time0, time1, AABB::default_box()).unwrap().numeric());
    }
    lemma_union_spans(boxes);
    lemma_spans_same(node.aabb, union_of(boxes), boxes);
}

/// Two trees built over the same objects have boxes of the same numbers at
/// their roots, whatever axes were drawn for either.
pub proof fn lemma_root_box_is_stable<H: Hittable>(
    objects: Seq<Arc<H>>,
    time0: Scalar,
    time1: Scalar,
    one: BVHNode<H>,
    other: BVHNode<H>,
)
    requires
        built(objects, time0, time1, one),
        built(objects, time0, time1, other),
        numeric_boxes(objects, time0, time1),
    ensures
        one.aabb.same(other.aabb),
{
    lemma_built_spans(objects, time0, time1, one);
    lemma_built_spans(objects, time0, time1, other);
    lemma_spans_same(one.aabb, other.aabb, boxes_of(objects, time0, time1));
}

/// `Rng::gen_range` on the thread's generator, for the range from zero up to
/// but without `n`: some number of that range.
#[verifier::external_body]
fn random_below(n: usize) -> (r: usize)
    requires
        n > 0,
    ensures
        r < n,
{
    rand::thread_rng().gen_range(0..n)
}

/// Orders two objects for the sort on `axis`: the one whose box begins
/// earlier comes later.
pub fn box_compare<H: Hittable>(a: &Arc<H>, b: &Arc<H>, axis: usize) -> (r: Ordering)
    requires
        axis < 3,
        a.bounds(Scalar { bits: 0 }, Scalar { bits: 0 }, AABB::default_box()) is Some,
        b.bounds(Scalar { bits: 0 }, Scalar { bits: 0 }, AABB::default_box()) is Some,
    ensures
        r == (if sort_key(**a, axis).less(sort_key(**b, axis)) {
            Ordering::Greater
        } else {
            Ordering::Less
        }),
{
    let mut box_a = AABB::default();
    let mut box_b = AABB::default();
    let has_box_a = a.bounding_box(Scalar::zero(), Scalar::zero(), &mut box_a);
    let has_box_b = b.bounding_box(Scalar::zero(), Scalar::zero(), &mut box_b);
    assert(has_box_a && has_box_b);
    if box_a.minimum.get(axis) < box_b.minimum.get(axis) {
        Ordering::Greater
    } else {
        Ordering::Less
    }
}

} // verus!
