use crate::scalar::Scalar;
use crate::scalar::INFINITY_BITS;
use crate::scalar::NEG_INFINITY_BITS;
use crate::vec3::Point3;
use crate::vec3::Vec3;
use vstd::prelude::*;
use vstd::std_specs::ops::BitAndSpecImpl;

verus! {

/// An axis-aligned box, given by its two extreme corners.
#[derive(Clone, Copy, Debug)]
pub struct AABB {
    pub minimum: Point3,
    pub maximum: Point3,
}

/// How a ray meets the two planes that bound a box on one axis: the inverse
/// of the ray's direction on that axis, and the ray parameters at which it
/// reaches the plane of the box's minimum (`t0`) and of its maximum (`t1`).
#[derive(Clone, Copy, Debug)]
pub struct Slab {
    pub inv_d: Scalar,
    pub t0: Scalar,
    pub t1: Scalar,
}

impl Slab {
    /// The ray runs against the axis.
    pub open spec fn backwards(self) -> bool {
        self.inv_d.less(Scalar { bits: 0 })
    }

    /// The parameter at which the ray enters the slab: that of the plane it
    /// reaches first.
    pub open spec fn entering(self) -> Scalar {
        if self.backwards() {
            self.t1
        } else {
            self.t0
        }
    }

    /// The parameter at which the ray leaves the slab.
    pub open spec fn leaving(self) -> Scalar {
        if self.backwards() {
            self.t0
        } else {
            self.t1
        }
    }

    /// The interval `(t_min, t_max)` cut down to the part between the two
    /// planes. A bound is replaced only by a value that compares as
    /// tighter, so a NaN never enters the interval.
    pub open spec fn narrowed(self, t_min: Scalar, t_max: Scalar) -> (Scalar, Scalar) {
        (
            if self.entering().greater(t_min) { self.entering() } else { t_min },
            if self.leaving().less(t_max) { self.leaving() } else { t_max },
        )
    }

    pub fn narrow(&self, t_min: Scalar, t_max: Scalar) -> (r: (Scalar, Scalar))
        ensures
            r == self.narrowed(t_min, t_max),
    {
        let mut t0 = self.t0;
        let mut t1 = self.t1;
        if self.inv_d < Scalar::zero() {
            t0 = self.t1;
            t1 = self.t0;
        }
        (if t0 > t_min { t0 } else { t_min }, if t1 < t_max { t1 } else { t_max })
    }
}

/// Whether an interval has nothing left in it. For a box with extent on
/// every axis that is an interval that is empty or inverted, `t_max <=
/// t_min`. For a flat box, one without extent on some axis, a ray spends no
/// time inside, and only the inverted interval, `t_max < t_min`, counts as
/// closed: the ray that reaches the box at one moment crosses it.
pub open spec fn closed_off(flat: bool, t_min: Scalar, t_max: Scalar) -> bool {
    if flat {
        t_max.less(t_min)
    } else {
        t_max.at_most(t_min)
    }
}

/// The interval that is left of `(t_min, t_max)` after the first `axes`
/// axes, each narrowing what the one before has left, or `None` once the
/// interval has been closed off. `flat` says whether the box is flat.
pub open spec fn left_after(
    slabs: [Slab; 3],
    flat: bool,
    axes: int,
    t_min: Scalar,
    t_max: Scalar,
) -> Option<(Scalar, Scalar)>
    decreases axes,
{
    if axes <= 0 {
        Some((t_min, t_max))
    } else {
        match left_after(slabs, flat, axes - 1, t_min, t_max) {
            None => None,
            Some((lo, hi)) => {
                let next = slabs[axes - 1].narrowed(lo, hi);
                if closed_off(flat, next.0, next.1) {
                    None
                } else {
                    Some(next)
                }
            },
        }
    }
}

/// The slab test: the interval is narrowed axis by axis, and the ray misses
/// as soon as the interval is closed off. `flat` says whether the box is
/// flat, so that an interval without extent is still crossed.
pub open spec fn crossed(slabs: [Slab; 3], flat: bool, t_min: Scalar, t_max: Scalar) -> bool {
    left_after(slabs, flat, 3, t_min, t_max) is Some
}

impl AABB {
    /// No coordinate is a NaN.
    pub open spec fn numeric(self) -> bool {
        self.minimum.numeric() && self.maximum.numeric()
    }

    /// The box is flat: on some axis its two corners hold the same number,
    /// so that it has no extent there.
    pub open spec fn flat(self) -> bool {
        ||| self.minimum.x.same(self.maximum.x)
        ||| self.minimum.y.same(self.maximum.y)
        ||| self.minimum.z.same(self.maximum.z)
    }

    /// Corner by corner the same numbers (the two zeros count as one).
    pub open spec fn same(self, other: AABB) -> bool {
        self.minimum.same(other.minimum) && self.maximum.same(other.maximum)
    }

    /// The union of two boxes: the component-wise smaller of the minimum
    /// corners and the component-wise larger of the maximum corners.
    pub open spec fn merged(self, other: AABB) -> AABB {
        AABB {
            minimum: self.minimum.min_of(other.minimum),
            maximum: self.maximum.max_of(other.maximum),
        }
    }

    /// One of the six numbers that bound the box, as a rank: the minimum on
    /// axis `side` for `side` 0, 1, 2 and the maximum on axis `side - 3` for
    /// `side` 3, 4, 5.
    pub open spec fn reach(self, side: int) -> int {
        if side < 3 {
            self.minimum.at(side).rank()
        } else {
            self.maximum.at(side - 3).rank()
        }
    }

    /// `other` lies inside `self` on every axis.
    pub open spec fn encloses(self, other: AABB) -> bool {
        &&& self.reach(0) <= other.reach(0)
        &&& self.reach(1) <= other.reach(1)
        &&& self.reach(2) <= other.reach(2)
        &&& self.reach(3) >= other.reach(3)
        &&& self.reach(4) >= other.reach(4)
        &&& self.reach(5) >= other.reach(5)
    }

    /// `self` is the union of `boxes`: a box of numbers that encloses each of
    /// them and reaches, on each of its six sides, exactly as far as one of
    /// them does.
    pub open spec fn spans(self, boxes: Seq<AABB>) -> bool {
        &&& self.numeric()
        &&& forall|i: int| 0 <= i < boxes.len() ==> self.encloses(#[trigger] boxes[i])
        &&& forall|side: int| 0 <= side < 6 ==> #[trigger] self.touches(boxes, side)
    }

    /// On `side`, `self` reaches exactly as far as one of `boxes`.
    pub open spec fn touches(self, boxes: Seq<AABB>, side: int) -> bool {
        exists|i: int| 0 <= i < boxes.len() && #[trigger] boxes[i].reach(side) == self.reach(side)
    }

    /// The box that `AABB::default()` gives: both corners at the origin.
    pub open spec fn default_box() -> AABB {
        AABB { minimum: Vec3::origin(), maximum: Vec3::origin() }
    }

    pub fn new(minimum: Point3, maximum: Point3) -> (r: AABB)
        ensures
            r == (AABB { minimum, maximum }),
    {
        AABB { minimum, maximum }
    }

    /// The smallest box round a list of points: it starts out inside out,
    /// from plus infinity down to minus infinity, and is stretched to each
    /// point in turn.
    pub open spec fn enclosure(points: Seq<Vec3>) -> AABB
        decreases points.len(),
    {
        if points.len() == 0 {
            let far = Scalar { bits: INFINITY_BITS };
            let back = Scalar { bits: NEG_INFINITY_BITS };
            AABB {
                minimum: Vec3 { x: far, y: far, z: far },
                maximum: Vec3 { x: back, y: back, z: back },
            }
        } else {
            let so_far = AABB::enclosure(points.drop_last());
            AABB {
                minimum: so_far.minimum.min_of(points.last()),
                maximum: so_far.maximum.max_of(points.last()),
            }
        }
    }

    /// The smallest box round `points`.
    pub fn around(points: &[Vec3]) -> (r: AABB)
        ensures
            r == AABB::enclosure(points@),
    {
        let mut min = Point3::new(Scalar::infinity(), Scalar::infinity(), Scalar::infinity());
        let mut max = Point3::new(
            Scalar::neg_infinity(),
            Scalar::neg_infinity(),
            Scalar::neg_infinity(),
        );
        let mut i: usize = 0;
        while i < points.len()
            invariant
                i <= points@.len(),
                (AABB { minimum: min, maximum: max }) == AABB::enclosure(points@.take(i as int)),
            decreases points@.len() - i,
        {
            proof {
                assert(points@.take(i + 1).drop_last() == points@.take(i as int));
            }
            min = min.min(points[i]);
            max = max.max(points[i]);
            i = i + 1;
        }
        proof {
            assert(points@.take(i as int) == points@);
        }
        AABB::new(min, max)
    }

    /// Whether the box is flat.
    pub fn is_flat(&self) -> (r: bool)
        ensures
            r == self.flat(),
    {
        self.minimum.x == self.maximum.x || self.minimum.y == self.maximum.y || self.minimum.z
            == self.maximum.z
    }

    /// The slab test on what the caller has computed for the three axes of
    /// a box that is flat or not.
    pub fn crosses(slabs: &[Slab; 3], flat: bool, t_min: Scalar, t_max: Scalar) -> (r: bool)
        ensures
            r == crossed(*slabs, flat, t_min, t_max),
    {
        let mut lo = t_min;
        let mut hi = t_max;
        let mut a: usize = 0;
        while a < 3
            invariant
                a <= 3,
                left_after(*slabs, flat, a as int, t_min, t_max) == Some((lo, hi)),
            decreases 3 - a,
        {
            let next = slabs[a].narrow(lo, hi);
            lo = next.0;
            hi = next.1;
            let closed = if flat {
                hi < lo
            } else {
                hi <= lo
            };
            if closed {
                proof {
                    lemma_stays_closed_off(*slabs, flat, a + 1, t_min, t_max);
                }
                return false;
            }
            a = a + 1;
        }
        true
    }

    /// Whether a ray passes through the box between `t_min` and `t_max`.
    /// The ray is given by `probe`, which computes how it meets the slabs of
    /// a box. Whether the box is flat, the box itself decides.
    pub fn hit<P: Fn(&AABB) -> [Slab; 3]>(
        &self,
        probe: &P,
        t_min: Scalar,
        t_max: Scalar,
    ) -> (r: bool)
        requires
            call_requires(*probe, (self,)),
        ensures
            exists|slabs: [Slab; 3]| #[trigger]
                call_ensures(*probe, (self,), slabs) && r == crossed(
                    slabs,
                    self.flat(),
                    t_min,
                    t_max,
                ),
    {
        let slabs = probe(self);
        AABB::crosses(&slabs, self.is_flat(), t_min, t_max)
    }
}

impl Default for AABB {
    fn default() -> (r: AABB)
        ensures
            r == AABB::default_box(),
    {
        AABB { minimum: Vec3::zero(), maximum: Vec3::zero() }
    }
}

impl core::ops::BitAnd for AABB {
    type Output = AABB;

    fn bitand(self, other: AABB) -> (r: AABB) {
        let minimum = self.minimum.min(other.minimum);
        let maximum = self.maximum.max(other.maximum);
        AABB::new(minimum, maximum)
    }
}

impl BitAndSpecImpl for AABB {
    open spec fn obeys_bitand_spec() -> bool {
        true
    }

    open spec fn bitand_req(self, other: AABB) -> bool {
        true
    }

    open spec fn bitand_spec(self, other: AABB) -> AABB {
        self.merged(other)
    }
}

/// Once the interval has been closed off, it stays so.
pub proof fn lemma_stays_closed_off(
    slabs: [Slab; 3],
    flat: bool,
    axes: int,
    t_min: Scalar,
    t_max: Scalar,
)
    requires
        0 <= axes <= 3,
        left_after(slabs, flat, axes, t_min, t_max) is None,
    ensures
        !crossed(slabs, flat, t_min, t_max),
    decreases 3 - axes,
{
    if axes < 3 {
        lemma_stays_closed_off(slabs, flat, axes + 1, t_min, t_max);
    }
}

/// A ray that is inside all three slabs at one and the same parameter, and
/// that parameter strictly between `t_min` and `t_max`, passes the slab test.
/// Such is a ray through the middle of a box that has some extent on every
/// axis, whether it runs along an axis (where it never leaves the other two
/// slabs: it enters at minus infinity and leaves at plus infinity) or
/// askew.
pub proof fn lemma_through_the_middle(
    slabs: [Slab; 3],
    flat: bool,
    t_min: Scalar,
    t_max: Scalar,
    middle: Scalar,
)
    requires
        t_min.less(middle),
        middle.less(t_max),
        forall|a: int| 0 <= a < 3 ==> (#[trigger] slabs[a]).entering().less(middle),
        forall|a: int| 0 <= a < 3 ==> middle.less((#[trigger] slabs[a]).leaving()),
    ensures
        crossed(slabs, flat, t_min, t_max),
{
    lemma_middle_stays_inside(slabs, flat, 3, t_min, t_max, middle);
}

/// The parameter in the middle stays strictly inside the interval, axis
/// after axis.
proof fn lemma_middle_stays_inside(
    slabs: [Slab; 3],
    flat: bool,
    axes: int,
    t_min: Scalar,
    t_max: Scalar,
    middle: Scalar,
)
    requires
        0 <= axes <= 3,
        t_min.less(middle),
        middle.less(t_max),
        forall|a: int| 0 <= a < 3 ==> (#[trigger] slabs[a]).entering().less(middle),
        forall|a: int| 0 <= a < 3 ==> middle.less((#[trigger] slabs[a]).leaving()),
    ensures
        left_after(slabs, flat, axes, t_min, t_max) matches Some((lo, hi)) && lo.less(middle)
            && middle.less(hi),
    decreases axes,
{
    if axes > 0 {
        lemma_middle_stays_inside(slabs, flat, axes - 1, t_min, t_max, middle);
        assert(slabs[axes - 1].entering().less(middle));
        assert(middle.less(slabs[axes - 1].leaving()));
    }
}

/// A flat box is crossed by every ray that reaches it: a ray that at one
/// and the same parameter, between `t_min` and `t_max`, has entered every
/// slab and left none passes the slab test, though it spends no time
/// inside. A slab that gives no number for an axis, as for a ray that runs
/// within the box's plane, does not count against it.
pub proof fn lemma_flat_box_is_crossed(
    slabs: [Slab; 3],
    t_min: Scalar,
    t_max: Scalar,
    moment: Scalar,
)
    requires
        t_min.at_most(moment),
        moment.at_most(t_max),
        forall|a: int| 0 <= a < 3 ==> !moment.less((#[trigger] slabs[a]).entering()),
        forall|a: int| 0 <= a < 3 ==> !(#[trigger] slabs[a]).leaving().less(moment),
    ensures
        crossed(slabs, true, t_min, t_max),
{
    lemma_moment_stays_inside(slabs, 3, t_min, t_max, moment);
}

/// The moment at which the ray reaches a flat box stays within the
/// interval, axis after axis.
proof fn lemma_moment_stays_inside(
    slabs: [Slab; 3],
    axes: int,
    t_min: Scalar,
    t_max: Scalar,
    moment: Scalar,
)
    requires
        0 <= axes <= 3,
        t_min.at_most(moment),
        moment.at_most(t_max),
        forall|a: int| 0 <= a < 3 ==> !moment.less((#[trigger] slabs[a]).entering()),
        forall|a: int| 0 <= a < 3 ==> !(#[trigger] slabs[a]).leaving().less(moment),
    ensures
        left_after(slabs, true, axes, t_min, t_max) matches Some((lo, hi)) && lo.at_most(moment)
            && moment.at_most(hi),
    decreases axes,
{
    if axes > 0 {
        lemma_moment_stays_inside(slabs, axes - 1, t_min, t_max, moment);
        assert(!moment.less(slabs[axes - 1].entering()));
        assert(!slabs[axes - 1].leaving().less(moment));
    }
}

/// A ray that leaves one of the slabs before the interval begins, or
/// enters it after the interval ends, fails the slab test, whatever the
/// other two axes say. For a box with extent on every axis it fails as well
/// where it leaves the slab just as the interval begins, or enters it just
/// as the interval ends.
pub proof fn lemma_missed_on_one_axis(
    slabs: [Slab; 3],
    flat: bool,
    t_min: Scalar,
    t_max: Scalar,
    axis: int,
)
    requires
        0 <= axis < 3,
        !t_min.nan(),
        !t_max.nan(),
        closed_off(flat, t_min, slabs[axis].leaving()) || closed_off(
            flat,
            slabs[axis].entering(),
            t_max,
        ),
    ensures
        !crossed(slabs, flat, t_min, t_max),
{
    lemma_interval_only_shrinks(slabs, flat, axis, t_min, t_max);
    let before = left_after(slabs, flat, axis, t_min, t_max);
    if before is Some {
        assert(left_after(slabs, flat, axis + 1, t_min, t_max) is None);
        lemma_stays_closed_off(slabs, flat, axis + 1, t_min, t_max);
    } else {
        lemma_stays_closed_off(slabs, flat, axis, t_min, t_max);
    }
}

/// What is left of an interval of numbers is an interval of numbers
/// within it.
proof fn lemma_interval_only_shrinks(
    slabs: [Slab; 3],
    flat: bool,
    axes: int,
    t_min: Scalar,
    t_max: Scalar,
)
    requires
        0 <= axes <= 3,
        !t_min.nan(),
        !t_max.nan(),
    ensures
        left_after(slabs, flat, axes, t_min, t_max) matches Some((lo, hi)) ==> t_min.at_most(lo)
            && hi.at_most(t_max),
    decreases axes,
{
    if axes > 0 {
        lemma_interval_only_shrinks(slabs, flat, axes - 1, t_min, t_max);
    }
}

/// Merging is commutative: in either order the result holds the same
/// numbers.
pub proof fn lemma_merge_commutative(a: AABB, b: AABB)
    requires
        a.numeric(),
        b.numeric(),
    ensures
        a.merged(b).same(b.merged(a)),
{
}

/// Merging is associative: however three boxes are grouped, the result holds
/// the same numbers.
pub proof fn lemma_merge_associative(a: AABB, b: AABB, c: AABB)
    requires
        a.numeric(),
        b.numeric(),
        c.numeric(),
    ensures
        a.merged(b).merged(c).same(a.merged(b.merged(c))),
{
}

/// Merging a box with itself gives the box back, bit for bit.
pub proof fn lemma_merge_idempotent(a: AABB)
    ensures
        a.merged(a) == a,
{
}

/// The union of a list of boxes, merged in their order.
pub open spec fn union_of(boxes: Seq<AABB>) -> AABB
    decreases boxes.len(),
{
    if boxes.len() <= 1 {
        boxes[0]
    } else {
        union_of(boxes.drop_last()).merged(boxes.last())
    }
}

/// The union of two boxes of numbers is a box of numbers that encloses both
/// and reaches, on each side, as far as one of them.
pub proof fn lemma_merge_encloses(a: AABB, b: AABB)
    requires
        a.numeric(),
        b.numeric(),
    ensures
        a.merged(b).numeric(),
        a.merged(b).encloses(a),
        a.merged(b).encloses(b),
        forall|side: int|
            0 <= side < 6 ==> #[trigger] a.merged(b).reach(side) == a.reach(side) || a.merged(
                b,
            ).reach(side) == b.reach(side),
{
}

/// A box that spans one list of boxes, merged with a box that spans another,
/// spans every list that is made up of boxes of the two.
pub proof fn lemma_spans_merged(
    a: AABB,
    b: AABB,
    first: Seq<AABB>,
    second: Seq<AABB>,
    all: Seq<AABB>,
)
    requires
        a.spans(first),
        b.spans(second),
        forall|i: int| 0 <= i < all.len() ==> first.contains(#[trigger] all[i]) || second.contains(all[i]),
        forall|i: int| 0 <= i < first.len() ==> all.contains(#[trigger] first[i]),
        forall|i: int| 0 <= i < second.len() ==> all.contains(#[trigger] second[i]),
    ensures
        a.merged(b).spans(all),
{
    let m = a.merged(b);
    lemma_merge_encloses(a, b);
    assert forall|i: int| 0 <= i < all.len() implies m.encloses(#[trigger] all[i]) by {
        let x = all[i];
        if first.contains(x) {
            let k = choose|k: int| 0 <= k < first.len() && first[k] == x;
            assert(a.encloses(first[k]));
        } else {
            assert(second.contains(x));
            let k = choose|k: int| 0 <= k < second.len() && second[k] == x;
            assert(b.encloses(second[k]));
        }
    }
    assert forall|side: int| 0 <= side < 6 implies #[trigger] m.touches(all, side) by {
        if m.reach(side) == a.reach(side) {
            assert(a.touches(first, side));
            let k = choose|k: int| 0 <= k < first.len() && #[trigger] first[k].reach(side) == a.reach(side);
            assert(all.contains(first[k]));
            let j = choose|j: int| 0 <= j < all.len() && all[j] == first[k];
            assert(all[j].reach(side) == m.reach(side));
        } else {
            assert(m.reach(side) == b.reach(side));
            assert(b.touches(second, side));
            let k = choose|k: int| 0 <= k < second.len() && #[trigger] second[k].reach(side) == b.reach(side);
            assert(all.contains(second[k]));
            let j = choose|j: int| 0 <= j < all.len() && all[j] == second[k];
            assert(all[j].reach(side) == m.reach(side));
        }
    }
}

/// A box of numbers spans the list that holds it alone.
pub proof fn lemma_spans_itself(a: AABB)
    requires
        a.numeric(),
    ensures
        a.spans(seq![a]),
{
    let boxes = seq![a];
    assert(boxes[0] == a);
    assert forall|side: int| 0 <= side < 6 implies #[trigger] a.touches(boxes, side) by {
        assert(boxes[0].reach(side) == a.reach(side));
    }
}

/// Merged in their order, boxes of numbers give their union.
pub proof fn lemma_union_spans(boxes: Seq<AABB>)
    requires
        boxes.len() >= 1,
        forall|i: int| 0 <= i < boxes.len() ==> (#[trigger] boxes[i]).numeric(),
    ensures
        union_of(boxes).spans(boxes),
    decreases boxes.len(),
{
    if boxes.len() == 1 {
        let u = union_of(boxes);
        assert forall|side: int| 0 <= side < 6 implies #[trigger] u.touches(boxes, side) by {
            assert(boxes[0].reach(side) == u.reach(side));
        }
    } else {
        let front = boxes.drop_last();
        let last = boxes.last();
        lemma_union_spans(front);
        let f = union_of(front);
        let u = union_of(boxes);
        lemma_merge_encloses(f, last);
        assert forall|i: int| 0 <= i < boxes.len() implies u.encloses(#[trigger] boxes[i]) by {
            if i < front.len() {
                assert(f.encloses(front[i]));
            }
        }
        assert forall|side: int| 0 <= side < 6 implies #[trigger] u.touches(boxes, side) by {
            if u.reach(side) == last.reach(side) {
                assert(boxes[boxes.len() - 1].reach(side) == u.reach(side));
            } else {
                assert(u.reach(side) == f.reach(side));
                assert(f.touches(front, side));
                let i = choose|i: int|
                    0 <= i < front.len() && #[trigger] front[i].reach(side) == f.reach(side);
                assert(boxes[i].reach(side) == u.reach(side));
            }
        }
    }
}

/// A list of boxes has one union: two boxes that both span it hold the same
/// numbers.
pub proof fn lemma_spans_same(a: AABB, b: AABB, boxes: Seq<AABB>)
    requires
        a.spans(boxes),
        b.spans(boxes),
    ensures
        a.same(b),
{
    assert forall|side: int| 0 <= side < 6 implies a.reach(side) == b.reach(side) by {
        assert(a.touches(boxes, side));
        assert(b.touches(boxes, side));
        let i = choose|i: int| 0 <= i < boxes.len() && #[trigger] boxes[i].reach(side) == a.reach(side);
        let j = choose|j: int| 0 <= j < boxes.len() && #[trigger] boxes[j].reach(side) == b.reach(side);
        assert(a.encloses(boxes[j]));
        assert(b.encloses(boxes[i]));
    }
    assert(a.reach(0) == b.reach(0));
    assert(a.reach(1) == b.reach(1));
    assert(a.reach(2) == b.reach(2));
    assert(a.reach(3) == b.reach(3));
    assert(a.reach(4) == b.reach(4));
    assert(a.reach(5) == b.reach(5));
}

} // verus!
