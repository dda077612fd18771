use crate::aabb::AABB;
use crate::hittable::HitRecord;
use crate::hittable::Hittable;
use crate::ray::Ray;
use crate::scalar::Scalar;
use std::sync::Arc;
use vstd::prelude::*;

verus! {

/// An ordered list of objects, queried as one.
pub struct HittableList<H> {
    pub items: Vec<Arc<H>>,
}

/// Where a hit query over a list stands: whether anything was hit, the
/// distance beyond which nothing is accepted any more, and the record.
pub struct Sweep<M> {
    pub hit_anything: bool,
    pub closest_so_far: Scalar,
    pub record: HitRecord<M>,
}

/// Where a bounding-box query over a list stands: the box that the last item
/// reported and the union so far.
pub struct Hull {
    pub last: AABB,
    pub all: AABB,
}

/// The state of a hit query after the items of `items` have been asked in
/// turn: each is asked only for hits no farther than the closest so far, and
/// each hit replaces the record.
pub open spec fn sweep<H: Hittable>(
    items: Seq<Arc<H>>,
    ray: Ray,
    t_min: Scalar,
    t_max: Scalar,
    before: HitRecord<H::Mat>,
) -> Sweep<H::Mat>
    decreases items.len(),
{
    if items.len() == 0 {
        Sweep { hit_anything: false, closest_so_far: t_max, record: before }
    } else {
        let so_far = sweep(items.drop_last(), ray, t_min, t_max, before);
        match items.last().found(ray, t_min, so_far.closest_so_far, so_far.record) {
            Some(record) => Sweep { hit_anything: true, closest_so_far: record.t, record },
            None => so_far,
        }
    }
}

/// The state of a bounding-box query after the items of `items` have been
/// asked in turn, or `None` if one of them has no box. The first box is
/// taken as it is, each later one is merged into the union.
pub open spec fn hull<H: Hittable>(
    items: Seq<Arc<H>>,
    time0: Scalar,
    time1: Scalar,
    last: AABB,
    all: AABB,
) -> Option<Hull>
    decreases items.len(),
{
    if items.len() == 0 {
        Some(Hull { last, all })
    } else {
        match hull(items.drop_last(), time0, time1, last, all) {
            None => None,
            Some(so_far) => match items.last().bounds(time0, time1, so_far.last) {
                None => None,
                Some(b) => Some(
                    Hull { last: b, all: if items.len() == 1 { b } else { so_far.all.merged(b) } },
                ),
            },
        }
    }
}

impl<H: Hittable> HittableList<H> {
    pub fn new() -> (r: HittableList<H>)
        ensures
            r.items@.len() == 0,
    {
        HittableList { items: Vec::new() }
    }

    pub fn add(&mut self, item: Arc<H>)
        ensures
            final(self).items@ == old(self).items@.push(item),
    {
        self.items.push(item)
    }
}

impl<H> Default for HittableList<H> {
    fn default() -> (r: HittableList<H>)
        ensures
            r.items@.len() == 0,
    {
        HittableList { items: Vec::new() }
    }
}

impl<H: Hittable> Hittable for HittableList<H> {
    type Mat = H::Mat;

    open spec fn found(
        &self,
        ray: Ray,
        t_min: Scalar,
        t_max: Scalar,
        before: HitRecord<H::Mat>,
    ) -> Option<HitRecord<H::Mat>> {
        let end = sweep(self.items@, ray, t_min, t_max, before);
        if end.hit_anything {
            Some(end.record)
        } else {
            None
        }
    }

    open spec fn bounds(&self, time0: Scalar, time1: Scalar, before: AABB) -> Option<AABB> {
        match hull(self.items@, time0, time1, AABB::default_box(), before) {
            None => None,
            Some(end) => Some(end.all),
        }
    }

    fn hit(
        &self,
        ray: &Ray,
        t_min: Scalar,
        t_max: Scalar,
        record: &mut HitRecord<H::Mat>,
    ) -> (b: bool) {
        let mut hit_anything = false;
        let mut closest_so_far = t_max;
        let mut i: usize = 0;
        while i < self.items.len()
            invariant
                i <= self.items@.len(),
                sweep(self.items@.take(i as int), *ray, t_min, t_max, *old(record)) == (Sweep {
                    hit_anything,
                    closest_so_far,
                    record: *record,
                }),
                !hit_anything ==> *record == *old(record),
            decreases self.items@.len() - i,
        {
            proof {
                assert(self.items@.take(i + 1).drop_last() == self.items@.take(i as int));
            }
            if self.items[i].hit(ray, t_min, closest_so_far, record) {
                hit_anything = true;
                closest_so_far = record.t;
            }
            i = i + 1;
        }
        proof {
            assert(self.items@.take(i as int) == self.items@);
        }
        hit_anything
    }

    fn bounding_box(&self, time0: Scalar, time1: Scalar, output_box: &mut AABB) -> (b: bool) {
        let mut temp_box = AABB::default();
        let mut first_box = true;
        let mut i: usize = 0;
        while i < self.items.len()
            invariant
                i <= self.items@.len(),
                first_box == (i == 0),
                hull(self.items@.take(i as int), time0, time1, AABB::default_box(), *old(output_box)) == Some(
                    Hull { last: temp_box, all: *output_box },
                ),
            decreases self.items@.len() - i,
        {
            proof {
                assert(self.items@.take(i + 1).drop_last() == self.items@.take(i as int));
            }
            if !self.items[i].bounding_box(time0, time1, &mut temp_box) {
                proof {
                    lemma_hull_stays_none(self.items@, i + 1, time0, time1, AABB::default_box(), *old(output_box));
                }
                return false;
            }
            *output_box = if first_box {
                temp_box
            } else {
                *output_box & temp_box
            };
            first_box = false;
            i = i + 1;
        }
        proof {
            assert(self.items@.take(i as int) == self.items@);
        }
        true
    }
}

/// Once a prefix of a list has no hull, no longer prefix has one.
pub proof fn lemma_hull_stays_none<H: Hittable>(
    items: Seq<Arc<H>>,
    n: int,
    time0: Scalar,
    time1: Scalar,
    last: AABB,
    all: AABB,
)
    requires
        0 <= n <= items.len(),
        hull(items.take(n), time0, time1, last, all) is None,
    ensures
        hull(items, time0, time1, last, all) is None,
    decreases items.len() - n,
{
    if n < items.len() {
        assert(items.take(n + 1).drop_last() == items.take(n));
        lemma_hull_stays_none(items, n + 1, time0, time1, last, all);
    } else {
        assert(items.take(n) == items);
    }
}

} // verus!
