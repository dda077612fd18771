use crate::aabb::crossed;
use crate::aabb::lemma_flat_box_is_crossed;
use crate::aabb::Slab;
use crate::aabb::AABB;
use crate::attribute::Attribute;
use crate::bvh::built;
use crate::bvh::pairs;
use crate::bvh::BVHNode;
use crate::hittable::Hittable;
use crate::scalar::Scalar;
use crate::scalar::ONE_BITS;
use crate::vec2::Vec2;
use crate::vec3::Point3;
use crate::vec3::Vec3;
use std::sync::Arc;
use vstd::prelude::*;

verus! {

/// The corners of a triangle, with a normal and a surface coordinate at
/// each.
#[derive(Clone, Copy, Debug)]
pub struct Facet {
    pub position: Attribute<Vec3>,
    pub normal: Attribute<Vec3>,
    pub uv: Attribute<Vec2>,
}

/// The point or direction with the coordinates given.
pub open spec fn at(x: Scalar, y: Scalar, z: Scalar) -> Vec3 {
    Vec3 { x, y, z }
}

/// The surface coordinate with the bit patterns given.
pub open spec fn on(u: u32, v: u32) -> Vec2 {
    Vec2 { x: Scalar { bits: u }, y: Scalar { bits: v } }
}

/// The direction along one axis: zeros and ones with the bit patterns given.
pub open spec fn along(x: u32, y: u32, z: u32) -> Vec3 {
    Vec3 { x: Scalar { bits: x }, y: Scalar { bits: y }, z: Scalar { bits: z } }
}

/// A facet with the corners given and one normal at all of them.
pub open spec fn facet(
    a: Point3,
    b: Point3,
    c: Point3,
    normal: Vec3,
    ta: Vec2,
    tb: Vec2,
    tc: Vec2,
) -> Facet {
    Facet {
        position: Attribute { a, b, c },
        normal: Attribute { a: normal, b: normal, c: normal },
        uv: Attribute { a: ta, b: tb, c: tc },
    }
}

/// The two triangles of the rectangle from `(x0, y0)` to `(x1, y1)` in the
/// plane `z = k`. Both hold the diagonal from `(x0, y0)` to `(x1, y1)`; the
/// first has `(x0, y1)` for its third corner, the second `(x1, y0)`.
pub open spec fn xy_halves(x0: Scalar, x1: Scalar, y0: Scalar, y1: Scalar, k: Scalar) -> (
    Facet,
    Facet,
) {
    let normal = along(0, 0, ONE_BITS);
    (
        facet(
            at(x0, y0, k),
            at(x1, y1, k),
            at(x0, y1, k),
            normal,
            on(0, 0),
            on(ONE_BITS, ONE_BITS),
            on(0, ONE_BITS),
        ),
        facet(
            at(x0, y0, k),
            at(x1, y0, k),
            at(x1, y1, k),
            normal,
            on(0, 0),
            on(ONE_BITS, 0),
            on(ONE_BITS, ONE_BITS),
        ),
    )
}

/// The two triangles of the rectangle from `(y0, z0)` to `(y1, z1)` in the
/// plane `x = k`. Both hold the diagonal from `(y0, z0)` to `(y1, z1)`; the
/// first has `(y1, z0)` for its third corner, the second `(y0, z1)`.
pub open spec fn yz_halves(y0: Scalar, y1: Scalar, z0: Scalar, z1: Scalar, k: Scalar) -> (
    Facet,
    Facet,
) {
    let normal = along(ONE_BITS, 0, 0);
    (
        facet(
            at(k, y0, z0),
            at(k, y1, z0),
            at(k, y1, z1),
            normal,
            on(0, 0),
            on(0, ONE_BITS),
            on(ONE_BITS, ONE_BITS),
        ),
        facet(
            at(k, y0, z0),
            at(k, y1, z1),
            at(k, y0, z1),
            normal,
            on(0, 0),
            on(ONE_BITS, ONE_BITS),
            on(ONE_BITS, 0),
        ),
    )
}

/// The two triangles of the rectangle from `(x0, z0)` to `(x1, z1)` in the
/// plane `y = k`. Both hold the diagonal from `(x0, z0)` to `(x1, z1)`; the
/// first has `(x0, z1)` for its third corner, the second `(x1, z0)`.
pub open spec fn xz_halves(x0: Scalar, x1: Scalar, z0: Scalar, z1: Scalar, k: Scalar) -> (
    Facet,
    Facet,
) {
    let normal = along(0, ONE_BITS, 0);
    (
        facet(
            at(x0, k, z0),
            at(x0, k, z1),
            at(x1, k, z1),
            normal,
            on(0, 0),
            on(ONE_BITS, ONE_BITS),
            on(0, ONE_BITS),
        ),
        facet(
            at(x0, k, z0),
            at(x1, k, z1),
            at(x1, k, z0),
            normal,
            on(0, 0),
            on(ONE_BITS, 0),
            on(ONE_BITS, ONE_BITS),
        ),
    )
}

/// `p` is a corner of the facet.
pub open spec fn has_corner(f: Facet, p: Point3) -> bool {
    f.position.a == p || f.position.b == p || f.position.c == p
}

/// Two facets make up the rectangle with the corners `p00`, `p10`, `p11`,
/// `p01`, in their order round it: both hold the diagonal from `p00` to
/// `p11`, one has `p01` for its third corner and the other `p10`, both begin
/// at `p00` and both carry the normal given at every corner.
pub open spec fn cuts(
    pair: (Facet, Facet),
    p00: Point3,
    p10: Point3,
    p11: Point3,
    p01: Point3,
    normal: Vec3,
) -> bool {
    &&& pair.0.position.a == p00 && pair.1.position.a == p00
    &&& has_corner(pair.0, p11) && has_corner(pair.1, p11)
    &&& has_corner(pair.0, p01) && has_corner(pair.1, p10)
    &&& pair.0.normal == (Attribute { a: normal, b: normal, c: normal })
    &&& pair.1.normal == (Attribute { a: normal, b: normal, c: normal })
}

fn corner(x: Scalar, y: Scalar, z: Scalar) -> (r: Point3)
    ensures
        r == at(x, y, z),
{
    Point3::new(x, y, z)
}

fn surface(u: u32, v: u32) -> (r: Vec2)
    ensures
        r == on(u, v),
{
    Vec2::new(Scalar::new(u), Scalar::new(v))
}

fn triangle(
    a: Point3,
    b: Point3,
    c: Point3,
    normal: Vec3,
    ta: Vec2,
    tb: Vec2,
    tc: Vec2,
) -> (r: Facet)
    ensures
        r == facet(a, b, c, normal, ta, tb, tc),
{
    Facet {
        position: Attribute { a, b, c },
        normal: Attribute { a: normal, b: normal, c: normal },
        uv: Attribute { a: ta, b: tb, c: tc },
    }
}

/// The rectangle from `(x0, y0)` to `(x1, y1)` in the plane `z = k`, as two
/// triangles with the normal along z.
pub fn xy_rect(x0: Scalar, x1: Scalar, y0: Scalar, y1: Scalar, k: Scalar) -> (r: (Facet, Facet))
    ensures
        r == xy_halves(x0, x1, y0, y1, k),
{
    let normal = Vec3::new(Scalar::zero(), Scalar::zero(), Scalar::one());
    let t1 = triangle(
        corner(x0, y0, k),
        corner(x1, y1, k),
        corner(x0, y1, k),
        normal,
        surface(0, 0),
        surface(ONE_BITS, ONE_BITS),
        surface(0, ONE_BITS),
    );
    let t2 = triangle(
        corner(x0, y0, k),
        corner(x1, y0, k),
        corner(x1, y1, k),
        normal,
        surface(0, 0),
        surface(ONE_BITS, 0),
        surface(ONE_BITS, ONE_BITS),
    );
    (t1, t2)
}

/// The rectangle from `(y0, z0)` to `(y1, z1)` in the plane `x = k`, as two
/// triangles with the normal along x.
pub fn yz_rect(y0: Scalar, y1: Scalar, z0: Scalar, z1: Scalar, k: Scalar) -> (r: (Facet, Facet))
    ensures
        r == yz_halves(y0, y1, z0, z1, k),
{
    let normal = Vec3::new(Scalar::one(), Scalar::zero(), Scalar::zero());
    let t1 = triangle(
        corner(k, y0, z0),
        corner(k, y1, z0),
        corner(k, y1, z1),
        normal,
        surface(0, 0),
        surface(0, ONE_BITS),
        surface(ONE_BITS, ONE_BITS),
    );
    let t2 = triangle(
        corner(k, y0, z0),
        corner(k, y1, z1),
        corner(k, y0, z1),
        normal,
        surface(0, 0),
        surface(ONE_BITS, ONE_BITS),
        surface(ONE_BITS, 0),
    );
    (t1, t2)
}

/// The rectangle from `(x0, z0)` to `(x1, z1)` in the plane `y = k`, as two
/// triangles with the normal along y.
pub fn xz_rect(x0: Scalar, x1: Scalar, z0: Scalar, z1: Scalar, k: Scalar) -> (r: (Facet, Facet))
    ensures
        r == xz_halves(x0, x1, z0, z1, k),
{
    let normal = Vec3::new(Scalar::zero(), Scalar::one(), Scalar::zero());
    let t1 = triangle(
        corner(x0, k, z0),
        corner(x0, k, z1),
        corner(x1, k, z1),
        normal,
        surface(0, 0),
        surface(ONE_BITS, ONE_BITS),
        surface(0, ONE_BITS),
    );
    let t2 = triangle(
        corner(x0, k, z0),
        corner(x1, k, z1),
        corner(x1, k, z0),
        normal,
        surface(0, 0),
        surface(ONE_BITS, 0),
        surface(ONE_BITS, ONE_BITS),
    );
    (t1, t2)
}

/// The six sides of the box between the corners `p0` and `p1`, each as two
/// triangles: the two sides across z, then those across y, then those across
/// x, the far one first.
pub open spec fn box_sides(p0: Vec3, p1: Vec3) -> Seq<(Facet, Facet)> {
    seq![
        xy_halves(p0.x, p1.x, p0.y, p1.y, p1.z),
        xy_halves(p1.x, p0.x, p0.y, p1.y, p0.z),
        xz_halves(p0.x, p1.x, p0.z, p1.z, p1.y),
        xz_halves(p1.x, p0.x, p0.z, p1.z, p0.y),
        yz_halves(p0.y, p1.y, p0.z, p1.z, p1.x),
        yz_halves(p1.y, p0.y, p0.z, p1.z, p0.x),
    ]
}

/// The six sides of the box between the corners `p0` and `p1`.
pub fn bake_box(p0: Vec3, p1: Vec3) -> (r: Vec<(Facet, Facet)>)
    ensures
        r@ == box_sides(p0, p1),
{
    let mut sides: Vec<(Facet, Facet)> = Vec::new();
    sides.push(xy_rect(p0.x, p1.x, p0.y, p1.y, p1.z));
    sides.push(xy_rect(p1.x, p0.x, p0.y, p1.y, p0.z));
    sides.push(xz_rect(p0.x, p1.x, p0.z, p1.z, p1.y));
    sides.push(xz_rect(p1.x, p0.x, p0.z, p1.z, p0.y));
    sides.push(yz_rect(p0.y, p1.y, p0.z, p1.z, p1.x));
    sides.push(yz_rect(p1.y, p0.y, p0.z, p1.z, p0.x));
    assert(sides@ =~= box_sides(p0, p1));
    sides
}

/// Each rectangle is cut along the diagonal from its first corner to the
/// opposite one, into two triangles that both begin at the first corner and
/// carry the rectangle's normal.
pub proof fn lemma_rects_share_diagonal(a0: Scalar, a1: Scalar, b0: Scalar, b1: Scalar, k: Scalar)
    ensures
        cuts(
            xy_halves(a0, a1, b0, b1, k),
            at(a0, b0, k),
            at(a1, b0, k),
            at(a1, b1, k),
            at(a0, b1, k),
            along(0, 0, ONE_BITS),
        ),
        cuts(
            yz_halves(a0, a1, b0, b1, k),
            at(k, a0, b0),
            at(k, a0, b1),
            at(k, a1, b1),
            at(k, a1, b0),
            along(ONE_BITS, 0, 0),
        ),
        cuts(
            xz_halves(a0, a1, b0, b1, k),
            at(a0, k, b0),
            at(a1, k, b0),
            at(a1, k, b1),
            at(a0, k, b1),
            along(0, ONE_BITS, 0),
        ),
{
}

/// The box round the corners of a facet, as a triangle with these corners
/// reports it.
pub open spec fn facet_box(f: Facet) -> AABB {
    AABB {
        minimum: f.position.a.min_of(f.position.b).min_of(f.position.c),
        maximum: f.position.a.max_of(f.position.b).max_of(f.position.c),
    }
}

/// `pair` is a rectangle in the plane at `k`, cut by `xy_rect`, `yz_rect` or
/// `xz_rect`.
pub open spec fn is_rect(
    pair: (Facet, Facet),
    a0: Scalar,
    a1: Scalar,
    b0: Scalar,
    b1: Scalar,
    k: Scalar,
) -> bool {
    ||| pair == xy_halves(a0, a1, b0, b1, k)
    ||| pair == yz_halves(a0, a1, b0, b1, k)
    ||| pair == xz_halves(a0, a1, b0, b1, k)
}

/// The hierarchy over the two halves of a rectangle has a flat box.
pub proof fn lemma_rect_box_is_flat<H: Hittable>(
    objects: Seq<Arc<H>>,
    time0: Scalar,
    time1: Scalar,
    node: BVHNode<H>,
    pair: (Facet, Facet),
    a0: Scalar,
    a1: Scalar,
    b0: Scalar,
    b1: Scalar,
    k: Scalar,
)
    requires
        !k.nan(),
        is_rect(pair, a0, a1, b0, b1, k),
        objects.len() == 2,
        objects[0].bounds(time0, time1, AABB::default_box()) == Some(facet_box(pair.0)),
        objects[1].bounds(time0, time1, AABB::default_box()) == Some(facet_box(pair.1)),
        built(objects, time0, time1, node),
    ensures
        node.aabb.flat(),
        node.aabb == facet_box(pair.0).merged(facet_box(pair.1)) || node.aabb == facet_box(
            pair.1,
        ).merged(facet_box(pair.0)),
{
    let axis = choose|axis: usize| #[trigger]
        pairs(objects[0], objects[1], axis, node.left, node.right);
    let one = facet_box(pair.0);
    let other = facet_box(pair.1);
    if pair == xy_halves(a0, a1, b0, b1, k) {
        assert(one.minimum.z == k && one.maximum.z == k);
        assert(other.minimum.z == k && other.maximum.z == k);
    } else if pair == yz_halves(a0, a1, b0, b1, k) {
        assert(one.minimum.x == k && one.maximum.x == k);
        assert(other.minimum.x == k && other.maximum.x == k);
    } else {
        assert(one.minimum.y == k && one.maximum.y == k);
        assert(other.minimum.y == k && other.maximum.y == k);
    }
}

/// A ray that meets the plane of a rectangle inside the rectangle crosses
/// the box of the hierarchy over its two halves, so that the two triangles
/// are asked: at the moment at which the ray is in the plane, between
/// `t_min` and `t_max`, it has entered every slab of the box and left none.
pub proof fn lemma_rect_is_crossed<H: Hittable>(
    objects: Seq<Arc<H>>,
    time0: Scalar,
    time1: Scalar,
    node: BVHNode<H>,
    pair: (Facet, Facet),
    a0: Scalar,
    a1: Scalar,
    b0: Scalar,
    b1: Scalar,
    k: Scalar,
    slabs: [Slab; 3],
    t_min: Scalar,
    t_max: Scalar,
    moment: Scalar,
)
    requires
        !k.nan(),
        is_rect(pair, a0, a1, b0, b1, k),
        objects.len() == 2,
        objects[0].bounds(time0, time1, AABB::default_box()) == Some(facet_box(pair.0)),
        objects[1].bounds(time0, time1, AABB::default_box()) == Some(facet_box(pair.1)),
        built(objects, time0, time1, node),
        t_min.at_most(moment),
        moment.at_most(t_max),
        forall|a: int| 0 <= a < 3 ==> !moment.less((#[trigger] slabs[a]).entering()),
        forall|a: int| 0 <= a < 3 ==> !(#[trigger] slabs[a]).leaving().less(moment),
    ensures
        crossed(slabs, node.aabb.flat(), t_min, t_max),
{
    lemma_rect_box_is_flat(objects, time0, time1, node, pair, a0, a1, b0, b1, k);
    lemma_flat_box_is_crossed(slabs, t_min, t_max, moment);
}

} // verus!
