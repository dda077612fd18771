use crate::aabb::crossed;
use crate::aabb::Slab;
use crate::aabb::AABB;
use crate::bvh::built;
use crate::bvh::later_wins;
use crate::bvh::picked;
use crate::bvh::sorts;
use crate::bvh::t_max_after;
use crate::bvh::BVHChild;
use crate::bvh::BVHNode;
use crate::hittable::HitRecord;
use crate::hittable::Hittable;
use crate::hittable_list::sweep;
use crate::ray::Ray;
use crate::scalar::Scalar;
use std::sync::Arc;
use vstd::prelude::*;

verus! {

/// An object reports the nearest place where the ray meets it. Asked for
/// hits up to a distance that is a number, what it finds lies within that
/// distance; it finds the same hit, the same in every field that a hit
/// writes, whenever that place lies within the distance asked for, whatever
/// the record held before; and it finds nothing where that place lies
/// beyond the distance asked for.
pub open spec fn steady<H: Hittable>(h: H, ray: Ray, t_min: Scalar) -> bool {
    forall|t1: Scalar, t2: Scalar, b1: HitRecord<H::Mat>, b2: HitRecord<H::Mat>|
        #![trigger h.found(ray, t_min, t1, b1), h.found(ray, t_min, t2, b2)]
        !t1.nan() && !t2.nan() ==> (h.found(ray, t_min, t1, b1) matches Some(whole) ==> {
            &&& whole.t.at_most(t1)
            &&& whole.t.at_most(t2) ==> {
                &&& h.found(ray, t_min, t2, b2) matches Some(part)
                &&& part.same_hit(whole)
            }
            &&& t2.less(whole.t) ==> h.found(ray, t_min, t2, b2) is None
        })
}

/// Every object of the list is steady.
pub open spec fn all_steady<H: Hittable>(items: Seq<Arc<H>>, ray: Ray, t_min: Scalar) -> bool {
    forall|i: int| 0 <= i < items.len() ==> steady(*#[trigger] items[i], ray, t_min)
}

/// What an object finds on its own, asked with a blank record.
pub open spec fn alone<H: Hittable>(
    h: Arc<H>,
    ray: Ray,
    t_min: Scalar,
    t_max: Scalar,
) -> Option<HitRecord<H::Mat>> {
    h.found(ray, t_min, t_max, HitRecord::<H::Mat>::blank())
}

/// The object at `i` is met, and `r` tells of that hit.
pub open spec fn met_at<H: Hittable>(
    items: Seq<Arc<H>>,
    i: int,
    ray: Ray,
    t_min: Scalar,
    t_max: Scalar,
    r: HitRecord<H::Mat>,
) -> bool {
    &&& 0 <= i < items.len()
    &&& alone(items[i], ray, t_min, t_max) matches Some(w)
    &&& w.same_hit(r)
}

/// `out` is the nearest hit among the objects: nothing, if the ray meets
/// none of them within the distance; else the distance and the material of
/// one of them that no other one undercuts.
pub open spec fn is_nearest<H: Hittable>(
    items: Seq<Arc<H>>,
    ray: Ray,
    t_min: Scalar,
    t_max: Scalar,
    out: Option<HitRecord<H::Mat>>,
) -> bool {
    match out {
        None => forall|i: int|
            0 <= i < items.len() ==> alone(#[trigger] items[i], ray, t_min, t_max) is None,
        Some(r) => {
            &&& exists|i: int| #[trigger] met_at(items, i, ray, t_min, t_max, r)
            &&& forall|j: int|
                0 <= j < items.len() ==> (alone(#[trigger] items[j], ray, t_min, t_max) matches Some(
                    w,
                ) ==> r.t.at_most(w.t))
        },
    }
}

/// The object at `i` is met at the distance and with the material of `r`,
/// and every object behind it in the list is met strictly farther off, if at
/// all.
pub open spec fn last_met_at<H: Hittable>(
    items: Seq<Arc<H>>,
    i: int,
    ray: Ray,
    t_min: Scalar,
    t_max: Scalar,
    r: HitRecord<H::Mat>,
) -> bool {
    &&& met_at(items, i, ray, t_min, t_max, r)
    &&& forall|j: int|
        i < j < items.len() ==> (alone(#[trigger] items[j], ray, t_min, t_max) matches Some(w)
            ==> r.t.less(w.t))
}

/// `out` is the nearest hit among the objects, and among objects that are
/// met at the same distance it is that of the one that stands last in the
/// list.
pub open spec fn is_latest<H: Hittable>(
    items: Seq<Arc<H>>,
    ray: Ray,
    t_min: Scalar,
    t_max: Scalar,
    out: Option<HitRecord<H::Mat>>,
) -> bool {
    &&& is_nearest(items, ray, t_min, t_max, out)
    &&& out matches Some(r) ==> exists|i: int| #[trigger] last_met_at(items, i, ray, t_min, t_max, r)
}

/// The ray meets one of the objects within the distance.
pub open spec fn meets_any<H: Hittable>(
    items: Seq<Arc<H>>,
    ray: Ray,
    t_min: Scalar,
    t_max: Scalar,
) -> bool {
    exists|i: int| 0 <= i < items.len() && alone(#[trigger] items[i], ray, t_min, t_max) is Some
}

/// What a steady object finds is the nearest hit among itself, whatever the
/// record held before.
pub proof fn lemma_one_is_nearest<H: Hittable>(
    h: Arc<H>,
    ray: Ray,
    t_min: Scalar,
    t_max: Scalar,
    before: HitRecord<H::Mat>,
)
    requires
        steady(*h, ray, t_min),
        !t_max.nan(),
    ensures
        is_latest(seq![h], ray, t_min, t_max, h.found(ray, t_min, t_max, before)),
{
    let items = seq![h];
    let blank = HitRecord::<H::Mat>::blank();
    let out = h.found(ray, t_min, t_max, before);
    assert(items[0] == h);
    match out {
        None => {
            if h.found(ray, t_min, t_max, blank) is Some {
                let w = h.found(ray, t_min, t_max, blank).unwrap();
                assert(w.t.at_most(t_max));
                assert(h.found(ray, t_min, t_max, before) is Some);
            }
        },
        Some(r) => {
            assert(r.t.at_most(t_max));
            assert(h.found(ray, t_min, t_max, blank) is Some);
            assert(met_at(items, 0, ray, t_min, t_max, r));
            assert(last_met_at(items, 0, ray, t_min, t_max, r));
        },
    }
}

/// Two lists asked one after the other, the second only for hits no
/// farther than what the first found: where all objects are steady, the
/// answer is the nearest hit among the objects of both.
pub proof fn lemma_nearest_of_both<H: Hittable>(
    first: Seq<Arc<H>>,
    second: Seq<Arc<H>>,
    ray: Ray,
    t_min: Scalar,
    t_max: Scalar,
    l: Option<HitRecord<H::Mat>>,
    r: Option<HitRecord<H::Mat>>,
    out: Option<HitRecord<H::Mat>>,
)
    requires
        all_steady(first, ray, t_min),
        all_steady(second, ray, t_min),
        !t_max.nan(),
        is_latest(first, ray, t_min, t_max, l),
        is_latest(second, ray, t_min, t_max_after(l, t_max), r),
        later_wins(l, r, out),
    ensures
        is_latest(first + second, ray, t_min, t_max, out),
{
    let both = first + second;
    let n = first.len() as int;
    assert forall|i: int| 0 <= i < both.len() implies #[trigger] both[i] == (if i < n {
        first[i]
    } else {
        second[i - n]
    }) by {}
    match l {
        None => {
            match r {
                None => {
                    assert forall|i: int| 0 <= i < both.len() implies alone(
                        #[trigger] both[i],
                        ray,
                        t_min,
                        t_max,
                    ) is None by {
                        if i < n {
                            assert(alone(first[i], ray, t_min, t_max) is None);
                        } else {
                            assert(alone(second[i - n], ray, t_min, t_max) is None);
                        }
                    }
                },
                Some(rr) => {
                    let k = choose|k: int| #[trigger] last_met_at(second, k, ray, t_min, t_max, rr);
                    assert(both[n + k] == second[k]);
                    assert(met_at(both, n + k, ray, t_min, t_max, rr));
                    assert forall|j: int| n + k < j < both.len() implies (alone(
                        #[trigger] both[j],
                        ray,
                        t_min,
                        t_max,
                    ) matches Some(w) ==> rr.t.less(w.t)) by {
                        assert(both[j] == second[j - n]);
                    }
                    assert(last_met_at(both, n + k, ray, t_min, t_max, rr));
                    assert forall|j: int| 0 <= j < both.len() implies (alone(
                        #[trigger] both[j],
                        ray,
                        t_min,
                        t_max,
                    ) matches Some(w) ==> rr.t.at_most(w.t)) by {
                        if j < n {
                            assert(alone(first[j], ray, t_min, t_max) is None);
                        } else {
                            assert(both[j] == second[j - n]);
                        }
                    }
                },
            }
        },
        Some(lr) => {
            let c = lr.t;
            let i = choose|i: int| #[trigger] last_met_at(first, i, ray, t_min, t_max, lr);
            let wi = alone(first[i], ray, t_min, t_max).unwrap();
            assert(steady(*first[i], ray, t_min));
            assert(wi.t.at_most(t_max));
            assert(c.at_most(t_max));
            match r {
                None => {
                    assert(both[i] == first[i]);
                    assert(met_at(both, i, ray, t_min, t_max, lr));
                    assert forall|j: int| i < j < both.len() implies (alone(
                        #[trigger] both[j],
                        ray,
                        t_min,
                        t_max,
                    ) matches Some(w) ==> lr.t.less(w.t)) by {
                        if j < n {
                            assert(both[j] == first[j]);
                        } else {
                            let x = second[j - n];
                            assert(both[j] == x);
                            assert(steady(*x, ray, t_min));
                            if alone(x, ray, t_min, t_max) is Some {
                                let w = alone(x, ray, t_min, t_max).unwrap();
                                assert(w.t.at_most(t_max));
                                assert(alone(x, ray, t_min, c) is None);
                                if w.t.at_most(c) {
                                    assert(alone(x, ray, t_min, c) is Some);
                                }
                            }
                        }
                    }
                    assert(last_met_at(both, i, ray, t_min, t_max, lr));
                    assert forall|j: int| 0 <= j < both.len() implies (alone(
                        #[trigger] both[j],
                        ray,
                        t_min,
                        t_max,
                    ) matches Some(w) ==> lr.t.at_most(w.t)) by {
                        if j < n {
                            assert(both[j] == first[j]);
                        } else {
                            let x = second[j - n];
                            assert(both[j] == x);
                            assert(steady(*x, ray, t_min));
                            if alone(x, ray, t_min, t_max) is Some {
                                let w = alone(x, ray, t_min, t_max).unwrap();
                                assert(w.t.at_most(t_max));
                                assert(alone(x, ray, t_min, c) is None);
                                if w.t.at_most(c) {
                                    assert(alone(x, ray, t_min, c) is Some);
                                }
                            }
                        }
                    }
                },
                Some(rr) => {
                    let k = choose|k: int| #[trigger] last_met_at(second, k, ray, t_min, c, rr);
                    let x = second[k];
                    let p = alone(x, ray, t_min, c).unwrap();
                    assert(steady(*x, ray, t_min));
                    assert(p.t.at_most(c));
                    assert(p.t.at_most(t_max));
                    assert(alone(x, ray, t_min, t_max) is Some);
                    assert(both[n + k] == x);
                    assert(met_at(both, n + k, ray, t_min, t_max, rr));
                    assert forall|j: int| n + k < j < both.len() implies (alone(
                        #[trigger] both[j],
                        ray,
                        t_min,
                        t_max,
                    ) matches Some(w) ==> rr.t.less(w.t)) by {
                        let y = second[j - n];
                        assert(both[j] == y);
                        assert(steady(*y, ray, t_min));
                        if alone(y, ray, t_min, t_max) is Some {
                            let w = alone(y, ray, t_min, t_max).unwrap();
                            assert(w.t.at_most(t_max));
                            if w.t.at_most(c) {
                                assert(alone(y, ray, t_min, c) is Some);
                                assert(alone(y, ray, t_min, c).unwrap().t == w.t);
                            }
                        }
                    }
                    assert(last_met_at(both, n + k, ray, t_min, t_max, rr));
                    assert forall|j: int| 0 <= j < both.len() implies (alone(
                        #[trigger] both[j],
                        ray,
                        t_min,
                        t_max,
                    ) matches Some(w) ==> rr.t.at_most(w.t)) by {
                        if j < n {
                            assert(both[j] == first[j]);
                            if alone(first[j], ray, t_min, t_max) is Some {
                                let w = alone(first[j], ray, t_min, t_max).unwrap();
                                assert(steady(*first[j], ray, t_min));
                                assert(w.t.at_most(t_max));
                                assert(lr.t.at_most(w.t));
                            }
                        } else {
                            let y = second[j - n];
                            assert(both[j] == y);
                            assert(steady(*y, ray, t_min));
                            if alone(y, ray, t_min, t_max) is Some {
                                let w = alone(y, ray, t_min, t_max).unwrap();
                                assert(w.t.at_most(t_max));
                                if w.t.at_most(c) {
                                    assert(alone(y, ray, t_min, c) is Some);
                                    assert(alone(y, ray, t_min, c).unwrap().t == w.t);
                                }
                            }
                        }
                    }
                },
            }
        },
    }
}

/// What a list of steady objects reports is the nearest hit among them.
pub proof fn lemma_list_finds_nearest<H: Hittable>(
    items: Seq<Arc<H>>,
    ray: Ray,
    t_min: Scalar,
    t_max: Scalar,
    before: HitRecord<H::Mat>,
)
    requires
        all_steady(items, ray, t_min),
        !t_max.nan(),
    ensures
        ({
            let end = sweep(items, ray, t_min, t_max, before);
            &&& !end.closest_so_far.nan()
            &&& is_latest(
                items,
                ray,
                t_min,
                t_max,
                if end.hit_anything {
                    Some(end.record)
                } else {
                    None
                },
            )
            &&& end.closest_so_far == (if end.hit_anything {
                end.record.t
            } else {
                t_max
            })
            &&& !end.hit_anything ==> end.record == before
        }),
    decreases items.len(),
{
    if items.len() > 0 {
        let front = items.drop_last();
        let x = items.last();
        assert forall|i: int| 0 <= i < front.len() implies steady(
            *#[trigger] front[i],
            ray,
            t_min,
        ) by {
            assert(front[i] == items[i]);
        }
        lemma_list_finds_nearest(front, ray, t_min, t_max, before);
        let so_far = sweep(front, ray, t_min, t_max, before);
        let l = if so_far.hit_anything {
            Some(so_far.record)
        } else {
            None
        };
        let r = x.found(ray, t_min, so_far.closest_so_far, so_far.record);
        assert(steady(*x, ray, t_min));
        lemma_one_is_nearest(x, ray, t_min, so_far.closest_so_far, so_far.record);
        let end = sweep(items, ray, t_min, t_max, before);
        let out = if end.hit_anything {
            Some(end.record)
        } else {
            None
        };
        assert(later_wins(l, r, out));
        assert(all_steady(seq![x], ray, t_min));
        lemma_nearest_of_both(front, seq![x], ray, t_min, t_max, l, r, out);
        assert(front + seq![x] == items);
    }
}

/// Two answers that are both the nearest hit among the same objects, and
/// that of the last one among those met at the same distance, agree: both
/// are misses, or both are hits at the same distance and with the same
/// material.
pub proof fn lemma_latest_is_one<H: Hittable>(
    items: Seq<Arc<H>>,
    ray: Ray,
    t_min: Scalar,
    t_max: Scalar,
    one: Option<HitRecord<H::Mat>>,
    other: Option<HitRecord<H::Mat>>,
)
    requires
        is_latest(items, ray, t_min, t_max, one),
        is_latest(items, ray, t_min, t_max, other),
    ensures
        one is Some == other is Some,
        one is Some ==> one.unwrap().same_hit(other.unwrap()),
{
    if one is Some {
        let r = one.unwrap();
        let i = choose|i: int| #[trigger] last_met_at(items, i, ray, t_min, t_max, r);
        assert(alone(items[i], ray, t_min, t_max) is Some);
        if other is Some {
            let q = other.unwrap();
            let k = choose|k: int| #[trigger] last_met_at(items, k, ray, t_min, t_max, q);
            assert(alone(items[k], ray, t_min, t_max) is Some);
            assert(i == k);
        }
    } else if other is Some {
        let q = other.unwrap();
        let k = choose|k: int| #[trigger] last_met_at(items, k, ray, t_min, t_max, q);
        assert(alone(items[k], ray, t_min, t_max) is Some);
    }
}

/// A list of steady objects is steady itself, so that lists may stand in
/// lists and below hierarchies.
pub proof fn lemma_list_is_steady<H: Hittable>(
    list: crate::hittable_list::HittableList<H>,
    ray: Ray,
    t_min: Scalar,
)
    requires
        all_steady(list.items@, ray, t_min),
    ensures
        steady(list, ray, t_min),
{
    let items = list.items@;
    assert forall|t1: Scalar, t2: Scalar, b1: HitRecord<H::Mat>, b2: HitRecord<H::Mat>|
        #![trigger list.found(ray, t_min, t1, b1), list.found(ray, t_min, t2, b2)]
        !t1.nan() && !t2.nan() implies (list.found(ray, t_min, t1, b1) matches Some(whole) ==> {
        &&& whole.t.at_most(t1)
        &&& whole.t.at_most(t2) ==> {
            &&& list.found(ray, t_min, t2, b2) matches Some(part)
            &&& part.same_hit(whole)
        }
        &&& t2.less(whole.t) ==> list.found(ray, t_min, t2, b2) is None
    }) by {
        if list.found(ray, t_min, t1, b1) is Some {
            let whole = list.found(ray, t_min, t1, b1).unwrap();
            let again = list.found(ray, t_min, t2, b2);
            lemma_list_finds_nearest(items, ray, t_min, t1, b1);
            lemma_list_finds_nearest(items, ray, t_min, t2, b2);
            let i = choose|i: int| #[trigger] last_met_at(items, i, ray, t_min, t1, whole);
            let x = items[i];
            assert(steady(*x, ray, t_min));
            assert(alone(x, ray, t_min, t1).unwrap().t.at_most(t1));
            if whole.t.at_most(t2) {
                assert(alone(x, ray, t_min, t2) is Some);
                assert(alone(x, ray, t_min, t2).unwrap().t == whole.t);
                assert(again is Some);
                let part = again.unwrap();
                let k = choose|k: int| #[trigger] last_met_at(items, k, ray, t_min, t2, part);
                let y = items[k];
                assert(steady(*y, ray, t_min));
                assert(part.t.at_most(whole.t));
                assert(alone(y, ray, t_min, t2).unwrap().t.at_most(t1));
                assert(alone(y, ray, t_min, t1) is Some);
                assert(alone(y, ray, t_min, t1).unwrap().t == part.t);
                assert(whole.t.at_most(part.t));
                assert(i == k);
            }
            if t2.less(whole.t) {
                if again is Some {
                    let part = again.unwrap();
                    let k = choose|k: int| #[trigger] last_met_at(items, k, ray, t_min, t2, part);
                    let y = items[k];
                    assert(steady(*y, ray, t_min));
                    assert(alone(y, ray, t_min, t2).unwrap().t.at_most(t2));
                    assert(alone(y, ray, t_min, t2).unwrap().t.at_most(t1));
                    assert(alone(y, ray, t_min, t1) is Some);
                    assert(alone(y, ray, t_min, t1).unwrap().t == part.t);
                    assert(whole.t.at_most(part.t));
                }
            }
        }
    }
}

impl<H: Hittable> BVHChild<H> {
    /// The probe lets no hit below the child go by: see `BVHNode::heeds`.
    pub open spec fn heeds<P: Fn(&AABB) -> [Slab; 3]>(
        self,
        probe: P,
        ray: Ray,
        t_min: Scalar,
    ) -> bool
        decreases self,
    {
        match self {
            BVHChild::Item(h) => true,
            BVHChild::Node(n) => n.heeds(probe, ray, t_min),
        }
    }
}

impl<H: Hittable> BVHNode<H> {
    /// The probe lets no hit go by: whenever the ray meets one of the
    /// objects below a node within some distance, the slabs that the probe
    /// gives for the node's box pass the slab test for that distance.
    pub open spec fn heeds<P: Fn(&AABB) -> [Slab; 3]>(
        self,
        probe: P,
        ray: Ray,
        t_min: Scalar,
    ) -> bool
        decreases self,
    {
        &&& forall|t_max: Scalar, slabs: [Slab; 3]|
            #![trigger crossed(slabs, self.aabb.flat(), t_min, t_max)]
            call_ensures(probe, (&self.aabb,), slabs) && meets_any(
                self.leaves(),
                ray,
                t_min,
                t_max,
            ) ==> crossed(slabs, self.aabb.flat(), t_min, t_max)
        &&& self.left.heeds(probe, ray, t_min)
        &&& self.right.heeds(probe, ray, t_min)
    }
}

/// What a child of a node reports is the nearest hit among the objects below
/// it.
pub proof fn lemma_child_finds_nearest<H: Hittable, P: Fn(&AABB) -> [Slab; 3]>(
    child: BVHChild<H>,
    probe: P,
    ray: Ray,
    t_min: Scalar,
    t_max: Scalar,
    before: HitRecord<H::Mat>,
    out: Option<HitRecord<H::Mat>>,
)
    requires
        all_steady(child.leaves(), ray, t_min),
        !t_max.nan(),
        child.heeds(probe, ray, t_min),
        child.reports(probe, ray, t_min, t_max, before, out),
    ensures
        is_latest(child.leaves(), ray, t_min, t_max, out),
    decreases child,
{
    match child {
        BVHChild::Item(h) => {
            assert(child.leaves()[0] == h);
            lemma_one_is_nearest(h, ray, t_min, t_max, before);
        },
        BVHChild::Node(n) => {
            lemma_tree_finds_nearest(*n, probe, ray, t_min, t_max, before, out);
        },
    }
}

/// What a hierarchy reports is the nearest hit among the objects below it,
/// where the objects are steady and the probe lets no hit go by.
pub proof fn lemma_tree_finds_nearest<H: Hittable, P: Fn(&AABB) -> [Slab; 3]>(
    node: BVHNode<H>,
    probe: P,
    ray: Ray,
    t_min: Scalar,
    t_max: Scalar,
    before: HitRecord<H::Mat>,
    out: Option<HitRecord<H::Mat>>,
)
    requires
        all_steady(node.leaves(), ray, t_min),
        !t_max.nan(),
        node.heeds(probe, ray, t_min),
        node.reports(probe, ray, t_min, t_max, before, out),
    ensures
        is_latest(node.leaves(), ray, t_min, t_max, out),
    decreases node,
{
    let leaves = node.leaves();
    let a = node.left.leaves();
    let b = node.right.leaves();
    assert(leaves == a + b);
    let slabs = choose|slabs: [Slab; 3]|
        {
            &&& #[trigger] call_ensures(probe, (&node.aabb,), slabs)
            &&& if crossed(slabs, node.aabb.flat(), t_min, t_max) {
                node.reports_below(probe, ray, t_min, t_max, before, out)
            } else {
                out is None
            }
        };
    if crossed(slabs, node.aabb.flat(), t_min, t_max) {
        let (l, r) = choose|l: Option<HitRecord<H::Mat>>, r: Option<HitRecord<H::Mat>>|
            {
                &&& #[trigger] later_wins(l, r, out)
                &&& node.left.reports(probe, ray, t_min, t_max, before, l)
                &&& node.right.reports(
                    probe,
                    ray,
                    t_min,
                    t_max_after(l, t_max),
                    crate::bvh::record_after(l, before),
                    r,
                )
            };
        assert forall|i: int| 0 <= i < a.len() implies steady(*#[trigger] a[i], ray, t_min) by {
            assert(a[i] == leaves[i]);
        }
        assert forall|i: int| 0 <= i < b.len() implies steady(*#[trigger] b[i], ray, t_min) by {
            assert(b[i] == leaves[a.len() + i]);
        }
        lemma_child_finds_nearest(node.left, probe, ray, t_min, t_max, before, l);
        lemma_child_finds_nearest(
            node.right,
            probe,
            ray,
            t_min,
            t_max_after(l, t_max),
            crate::bvh::record_after(l, before),
            r,
        );
        lemma_nearest_of_both(a, b, ray, t_min, t_max, l, r, out);
    } else {
        assert(!meets_any(leaves, ray, t_min, t_max));
        assert forall|i: int| 0 <= i < leaves.len() implies alone(
            #[trigger] leaves[i],
            ray,
            t_min,
            t_max,
        ) is None by {}
    }
}

/// Two lists hold the same objects, in whatever order and however often.
pub open spec fn same_objects<H>(a: Seq<Arc<H>>, b: Seq<Arc<H>>) -> bool {
    &&& forall|i: int| 0 <= i < a.len() ==> b.contains(#[trigger] a[i])
    &&& forall|j: int| 0 <= j < b.len() ==> a.contains(#[trigger] b[j])
}

/// The nearest hit among some objects is the nearest hit among the same
/// objects in any other order.
pub proof fn lemma_nearest_of_same<H: Hittable>(
    a: Seq<Arc<H>>,
    b: Seq<Arc<H>>,
    ray: Ray,
    t_min: Scalar,
    t_max: Scalar,
    out: Option<HitRecord<H::Mat>>,
)
    requires
        same_objects(a, b),
        is_nearest(a, ray, t_min, t_max, out),
    ensures
        is_nearest(b, ray, t_min, t_max, out),
{
    match out {
        None => {
            assert forall|j: int| 0 <= j < b.len() implies alone(
                #[trigger] b[j],
                ray,
                t_min,
                t_max,
            ) is None by {
                assert(a.contains(b[j]));
                let i = choose|i: int| 0 <= i < a.len() && a[i] == b[j];
                assert(alone(a[i], ray, t_min, t_max) is None);
            }
        },
        Some(r) => {
            let i = choose|i: int| #[trigger] met_at(a, i, ray, t_min, t_max, r);
            assert(b.contains(a[i]));
            let k = choose|k: int| 0 <= k < b.len() && b[k] == a[i];
            assert(met_at(b, k, ray, t_min, t_max, r));
            assert forall|j: int| 0 <= j < b.len() implies (alone(
                #[trigger] b[j],
                ray,
                t_min,
                t_max,
            ) matches Some(w) ==> r.t.at_most(w.t)) by {
                assert(a.contains(b[j]));
                let i = choose|i: int| 0 <= i < a.len() && a[i] == b[j];
                assert(alone(a[i], ray, t_min, t_max) == alone(b[j], ray, t_min, t_max));
            }
        },
    }
}

/// Two answers that are both the nearest hit among the same objects agree:
/// both are misses, or both are hits at the same distance.
pub proof fn lemma_nearest_is_one<H: Hittable>(
    items: Seq<Arc<H>>,
    ray: Ray,
    t_min: Scalar,
    t_max: Scalar,
    one: Option<HitRecord<H::Mat>>,
    other: Option<HitRecord<H::Mat>>,
)
    requires
        is_nearest(items, ray, t_min, t_max, one),
        is_nearest(items, ray, t_min, t_max, other),
    ensures
        one is Some == other is Some,
        one is Some ==> one.unwrap().t.same(other.unwrap().t),
{
    if one is Some {
        let r = one.unwrap();
        let i = choose|i: int| #[trigger] met_at(items, i, ray, t_min, t_max, r);
        assert(alone(items[i], ray, t_min, t_max) is Some);
        if other is Some {
            let q = other.unwrap();
            let k = choose|k: int| #[trigger] met_at(items, k, ray, t_min, t_max, q);
            assert(alone(items[k], ray, t_min, t_max) is Some);
        }
    } else if other is Some {
        let q = other.unwrap();
        let k = choose|k: int| #[trigger] met_at(items, k, ray, t_min, t_max, q);
        assert(alone(items[k], ray, t_min, t_max) is Some);
    }
}

/// The objects below a built tree are the objects that it was built over.
pub proof fn lemma_built_holds_the_objects<H: Hittable>(
    objects: Seq<Arc<H>>,
    time0: Scalar,
    time1: Scalar,
    node: BVHNode<H>,
)
    requires
        built(objects, time0, time1, node),
    ensures
        same_objects(node.leaves(), objects),
    decreases objects.len(),
{
    let n = objects.len() as int;
    let leaves = node.leaves();
    if n == 1 {
        assert(leaves == seq![objects[0], objects[0]]);
        assert(leaves[0] == objects[0] && leaves[1] == objects[0]);
    } else if n == 2 {
        let axis = choose|axis: usize| #[trigger]
            crate::bvh::pairs(objects[0], objects[1], axis, node.left, node.right);
        assert(leaves.len() == 2);
        assert(leaves[0] == objects[0] || leaves[0] == objects[1]);
        assert(leaves[1] == objects[0] || leaves[1] == objects[1]);
        assert(leaves[0] == objects[0] || leaves[1] == objects[0]);
        assert(leaves[0] == objects[1] || leaves[1] == objects[1]);
    } else {
        let (axis, order, place) = choose|axis: usize, order: Seq<usize>, place: Seq<int>|
            {
                &&& #[trigger] sorts(objects, axis, order, place)
                &&& node.left matches BVHChild::Node(l)
                &&& node.right matches BVHChild::Node(r)
                &&& built(picked(objects, order, 0, n / 2), time0, time1, *l)
                &&& built(picked(objects, order, n / 2, n), time0, time1, *r)
            };
        let mid = n / 2;
        let first = picked(objects, order, 0, mid);
        let second = picked(objects, order, mid, n);
        let l = node.left->Node_0;
        let r = node.right->Node_0;
        lemma_built_holds_the_objects(first, time0, time1, *l);
        lemma_built_holds_the_objects(second, time0, time1, *r);
        let a = l.leaves();
        let b = r.leaves();
        assert(leaves == a + b);
        assert forall|i: int| 0 <= i < leaves.len() implies objects.contains(
            #[trigger] leaves[i],
        ) by {
            if i < a.len() {
                assert(leaves[i] == a[i]);
                assert(first.contains(a[i]));
                let k = choose|k: int| 0 <= k < first.len() && first[k] == a[i];
                assert(objects[order[k] as int] == a[i]);
            } else {
                assert(leaves[i] == b[i - a.len()]);
                assert(second.contains(b[i - a.len()]));
                let k = choose|k: int| 0 <= k < second.len() && second[k] == b[i - a.len()];
                assert(objects[order[mid + k] as int] == b[i - a.len()]);
            }
        }
        assert forall|j: int| 0 <= j < objects.len() implies leaves.contains(
            #[trigger] objects[j],
        ) by {
            let p = place[j];
            assert(order[p] == j);
            if p < mid {
                assert(first[p] == objects[j]);
                assert(a.contains(first[p]));
                let k = choose|k: int| 0 <= k < a.len() && a[k] == first[p];
                assert(leaves[k] == objects[j]);
            } else {
                assert(second[p - mid] == objects[j]);
                assert(b.contains(second[p - mid]));
                let k = choose|k: int| 0 <= k < b.len() && b[k] == second[p - mid];
                assert(leaves[a.len() + k] == objects[j]);
            }
        }
    }
}

/// Objects that the ray meets at one and the same distance tell of the
/// same hit: no two hits tie, or those that tie are alike.
pub open spec fn ties_agree<H: Hittable>(
    objects: Seq<Arc<H>>,
    ray: Ray,
    t_min: Scalar,
    t_max: Scalar,
) -> bool {
    forall|i: int, j: int|
        #![trigger objects[i], objects[j]]
        0 <= i < objects.len() && 0 <= j < objects.len() ==> (alone(
            objects[i],
            ray,
            t_min,
            t_max,
        ) matches Some(a) ==> (alone(objects[j], ray, t_min, t_max) matches Some(b) ==> (a.t.same(
            b.t,
        ) ==> a.same_hit(b))))
}

/// A hierarchy finds what the plain list of its objects finds: where the
/// objects are steady and the probe lets no hit go by, both miss, or both
/// hit at the same distance, whatever axes the tree was split on. Ties
/// aside, both tell of the same hit: the same place, normal, face, surface
/// coordinates and material.
pub proof fn lemma_hierarchy_agrees_with_list<H: Hittable, P: Fn(&AABB) -> [Slab; 3]>(
    objects: Seq<Arc<H>>,
    time0: Scalar,
    time1: Scalar,
    node: BVHNode<H>,
    probe: P,
    ray: Ray,
    t_min: Scalar,
    t_max: Scalar,
    before: HitRecord<H::Mat>,
    out: Option<HitRecord<H::Mat>>,
)
    requires
        built(objects, time0, time1, node),
        all_steady(objects, ray, t_min),
        !t_max.nan(),
        node.heeds(probe, ray, t_min),
        node.reports(probe, ray, t_min, t_max, before, out),
    ensures
        is_nearest(objects, ray, t_min, t_max, out),
        out is Some == sweep(objects, ray, t_min, t_max, before).hit_anything,
        out is Some ==> out.unwrap().t.same(sweep(objects, ray, t_min, t_max, before).record.t),
        out is Some && ties_agree(objects, ray, t_min, t_max) ==> out.unwrap().same_hit(
            sweep(objects, ray, t_min, t_max, before).record,
        ),
{
    let leaves = node.leaves();
    lemma_built_holds_the_objects(objects, time0, time1, node);
    assert forall|i: int| 0 <= i < leaves.len() implies steady(*#[trigger] leaves[i], ray, t_min) by {
        assert(objects.contains(leaves[i]));
        let k = choose|k: int| 0 <= k < objects.len() && objects[k] == leaves[i];
        assert(steady(*objects[k], ray, t_min));
    }
    lemma_tree_finds_nearest(node, probe, ray, t_min, t_max, before, out);
    lemma_nearest_of_same(leaves, objects, ray, t_min, t_max, out);
    lemma_list_finds_nearest(objects, ray, t_min, t_max, before);
    let end = sweep(objects, ray, t_min, t_max, before);
    let by_list = if end.hit_anything {
        Some(end.record)
    } else {
        None
    };
    lemma_nearest_is_one(objects, ray, t_min, t_max, out, by_list);
    if out is Some && ties_agree(objects, ray, t_min, t_max) {
        let r = out.unwrap();
        let q = end.record;
        let i = choose|i: int| #[trigger] met_at(objects, i, ray, t_min, t_max, r);
        let k = choose|k: int| #[trigger] met_at(objects, k, ray, t_min, t_max, q);
        let a = alone(objects[i], ray, t_min, t_max).unwrap();
        let b = alone(objects[k], ray, t_min, t_max).unwrap();
        assert(a.t.same(b.t));
        assert(a.same_hit(b));
    }
}

/// Of two objects that a ray meets, a list reports the nearer one, with its
/// distance and its material, in whichever order the two were added.
pub proof fn lemma_nearer_wins<H: Hittable>(
    a: Arc<H>,
    b: Arc<H>,
    ray: Ray,
    t_min: Scalar,
    t_max: Scalar,
    before: HitRecord<H::Mat>,
)
    requires
        steady(*a, ray, t_min),
        steady(*b, ray, t_min),
        !t_max.nan(),
        a.found(ray, t_min, t_max, before) is Some,
        b.found(ray, t_min, t_max, before) is Some,
        a.found(ray, t_min, t_max, before).unwrap().t.less(
            b.found(ray, t_min, t_max, before).unwrap().t,
        ),
    ensures
        ({
            let nearer = a.found(ray, t_min, t_max, before).unwrap();
            let one = sweep(seq![a, b], ray, t_min, t_max, before);
            let other = sweep(seq![b, a], ray, t_min, t_max, before);
            &&& one.hit_anything
            &&& one.record.same_hit(nearer)
            &&& other.hit_anything
            &&& other.record.same_hit(nearer)
        }),
{
    let ra = a.found(ray, t_min, t_max, before).unwrap();
    let rb = b.found(ray, t_min, t_max, before).unwrap();
    let none: Seq<Arc<H>> = Seq::empty();
    // a first, then b
    assert(seq![a, b].drop_last() == seq![a]);
    assert(seq![a].drop_last() == none);
    let after_a = sweep(seq![a], ray, t_min, t_max, before);
    assert(sweep(none, ray, t_min, t_max, before).record == before);
    assert(after_a.record == ra);
    assert(b.found(ray, t_min, ra.t, ra) is None);
    // b first, then a
    assert(seq![b, a].drop_last() == seq![b]);
    assert(seq![b].drop_last() == none);
    let after_b = sweep(seq![b], ray, t_min, t_max, before);
    assert(after_b.record == rb);
    assert(rb.t.at_most(t_max));
    assert(a.found(ray, t_min, rb.t, rb) is Some);
}

} // verus!
