use ray_tracing::aabb::Slab;
use ray_tracing::aabb::AABB;
use ray_tracing::bvh::box_compare;
use ray_tracing::bvh::BVHChild;
use ray_tracing::bvh::BVHNode;
use ray_tracing::cpu_renderer::ray_color;
use ray_tracing::cpu_renderer::surface_color;
use ray_tracing::hittable::HitRecord;
use ray_tracing::hittable::Hittable;
use ray_tracing::hittable::RotateY;
use ray_tracing::hittable::Translate;
use ray_tracing::hittable_list::HittableList;
use ray_tracing::material::Lambertian;
use ray_tracing::material::Material;
use ray_tracing::ray::Ray;
use ray_tracing::scalar::Scalar;
use ray_tracing::sphere::Root;
use ray_tracing::sphere::Sphere;
use ray_tracing::sphere::SphereCrossing;
use ray_tracing::texture::SolidColor;
use ray_tracing::vec3::Color;
use ray_tracing::vec3::Vec3;
use std::cmp::Ordering;
use std::sync::Arc;

fn s(x: f32) -> Scalar {
    Scalar::new(x.to_bits())
}

fn f(x: Scalar) -> f32 {
    f32::from_bits(x.bits)
}

fn v(x: f32, y: f32, z: f32) -> Vec3 {
    Vec3::new(s(x), s(y), s(z))
}

fn xyz(a: Vec3) -> [f32; 3] {
    [f(a.x), f(a.y), f(a.z)]
}

fn dot(a: Vec3, b: Vec3) -> f32 {
    let (a, b) = (xyz(a), xyz(b));
    a[0] * b[0] + a[1] * b[1] + a[2] * b[2]
}

fn sub(a: Vec3, b: Vec3) -> Vec3 {
    let (a, b) = (xyz(a), xyz(b));
    v(a[0] - b[0], a[1] - b[1], a[2] - b[2])
}

fn add(a: Vec3, b: Vec3) -> Vec3 {
    let (a, b) = (xyz(a), xyz(b));
    v(a[0] + b[0], a[1] + b[1], a[2] + b[2])
}

fn scale(a: Vec3, t: f32) -> Vec3 {
    let a = xyz(a);
    v(t * a[0], t * a[1], t * a[2])
}

fn times(a: Vec3, b: Vec3) -> Vec3 {
    let (a, b) = (xyz(a), xyz(b));
    v(a[0] * b[0], a[1] * b[1], a[2] * b[2])
}

fn at(ray: &Ray, t: f32) -> Vec3 {
    add(ray.orig, scale(ray.dir, t))
}

/// How `ray` meets the slabs of `b`, as the slab test computes it.
fn slabs(ray: &Ray, b: &AABB) -> [Slab; 3] {
    let (o, d) = (xyz(ray.orig), xyz(ray.dir));
    let (lo, hi) = (xyz(b.minimum), xyz(b.maximum));
    let one = |a: usize| {
        let inv_d = 1.0 / d[a];
        Slab { inv_d: s(inv_d), t0: s((lo[a] - o[a]) * inv_d), t1: s((hi[a] - o[a]) * inv_d) }
    };
    [one(0), one(1), one(2)]
}

/// A paint that scatters straight along the normal and takes half the light.
struct Paint {
    tint: f32,
    glow: f32,
    absorbs: bool,
}

impl Material<Paint> for Paint {
    fn scatter(
        &self,
        _ray_in: &Ray,
        rec: &HitRecord<Paint>,
        alb: &mut Color,
        scattered: &mut Ray,
        _pdf: &mut Scalar,
    ) -> bool {
        if self.absorbs {
            return false;
        }
        *alb = v(self.tint, self.tint, self.tint);
        *scattered = Ray::new(rec.p, rec.normal);
        true
    }

    fn emitted(&self, _rec: &HitRecord<Paint>) -> Color {
        v(self.glow, self.glow, self.glow)
    }
}

fn paint(tint: f32) -> Arc<Paint> {
    Arc::new(Paint { tint, glow: 0.0, absorbs: false })
}

fn lamp(glow: f32) -> Arc<Paint> {
    Arc::new(Paint { tint: 0.0, glow, absorbs: true })
}

fn root(ray: &Ray, sphere: &Sphere<Paint>, t: f32) -> Root {
    let p = at(ray, t);
    let n = scale(sub(p, sphere.center), 1.0 / f(sphere.radius));
    let [nx, ny, nz] = xyz(n);
    let theta = (-ny).acos();
    let phi = (-nz).atan2(nx) + std::f32::consts::PI;
    Root {
        t: s(t),
        p,
        outward_normal: n,
        u: s(phi / (2.0 * std::f32::consts::PI)),
        v: s(theta / std::f32::consts::PI),
        facing: s(dot(ray.dir, n)),
    }
}

/// The quadratic equation of `ray` and `sphere`, solved.
fn crossing(ray: &Ray, sphere: &Sphere<Paint>) -> SphereCrossing {
    let oc = sub(ray.orig, sphere.center);
    let a = dot(ray.dir, ray.dir);
    let half_b = dot(oc, ray.dir);
    let c = dot(oc, oc) - f(sphere.radius) * f(sphere.radius);
    let discriminant = half_b * half_b - a * c;
    let sqrtd = discriminant.sqrt();
    SphereCrossing {
        discriminant: s(discriminant),
        near: root(ray, sphere, (-half_b - sqrtd) / a),
        far: root(ray, sphere, (-half_b + sqrtd) / a),
    }
}

/// Everything that the scenes of these tests are made of.
enum Shape {
    Ball(Arc<Sphere<Paint>>),
    Unbounded,
    Moved(Translate<Shape>),
    Turned(RotateY<Shape>),
    Tree(BVHNode<Shape>),
    Many(HittableList<Shape>),
}

impl Hittable for Shape {
    type Mat = Paint;

    fn hit(&self, ray: &Ray, t_min: Scalar, t_max: Scalar, record: &mut HitRecord<Paint>) -> bool {
        match self {
            Shape::Ball(sphere) => sphere.hit(&crossing(ray, sphere), t_min, t_max, record),
            Shape::Unbounded => false,
            Shape::Moved(moved) => {
                let d = moved.displacement;
                let moved_r = Ray::new(sub(ray.orig, d), ray.dir);
                moved.hit(
                    &moved_r,
                    t_min,
                    t_max,
                    record,
                    &|p: Vec3| add(p, d),
                    &|n: Vec3| s(dot(moved_r.dir, n)),
                )
            },
            Shape::Turned(turned) => {
                let (sin, cos) = (f(turned.sin_theta), f(turned.cos_theta));
                let there = |a: Vec3| {
                    let [x, y, z] = xyz(a);
                    v(cos * x - sin * z, y, sin * x + cos * z)
                };
                let back = |a: Vec3| {
                    let [x, y, z] = xyz(a);
                    v(cos * x + sin * z, y, -sin * x + cos * z)
                };
                let rotated_r = Ray::new(there(ray.orig), there(ray.dir));
                turned.hit(
                    &rotated_r,
                    t_min,
                    t_max,
                    record,
                    &back,
                    &|n: Vec3| s(dot(rotated_r.dir, n)),
                )
            },
            Shape::Tree(node) => node.hit(&|b: &AABB| slabs(ray, b), ray, t_min, t_max, record),
            Shape::Many(list) => list.hit(ray, t_min, t_max, record),
        }
    }

    fn bounding_box(&self, time0: Scalar, time1: Scalar, output_box: &mut AABB) -> bool {
        match self {
            Shape::Ball(sphere) => {
                let r = f(sphere.radius);
                *output_box =
                    AABB::new(sub(sphere.center, v(r, r, r)), add(sphere.center, v(r, r, r)));
                true
            },
            Shape::Unbounded => false,
            Shape::Moved(moved) => {
                let d = moved.displacement;
                moved.bounding_box(time0, time1, output_box, &|p: Vec3| add(p, d))
            },
            Shape::Turned(turned) => turned.bounding_box(time0, time1, output_box),
            Shape::Tree(node) => node.bounding_box(time0, time1, output_box),
            Shape::Many(list) => list.bounding_box(time0, time1, output_box),
        }
    }
}

fn ball(x: f32, y: f32, z: f32, r: f32, material: &Arc<Paint>) -> Arc<Shape> {
    Arc::new(Shape::Ball(Sphere::new(v(x, y, z), s(r), material.clone())))
}

fn ray(from: [f32; 3], dir: [f32; 3]) -> Ray {
    Ray::new(v(from[0], from[1], from[2]), v(dir[0], dir[1], dir[2]))
}

fn blend(emitted: Color, attenuation: Color, incoming: Color) -> Color {
    add(emitted, times(attenuation, incoming))
}

fn box_of(shape: &Shape) -> AABB {
    let mut b = AABB::default();
    assert!(shape.bounding_box(s(0.0), s(1.0), &mut b));
    b
}

fn corners(b: &AABB) -> [[f32; 3]; 2] {
    [xyz(b.minimum), xyz(b.maximum)]
}

/// A stream of numbers that looks random and is the same in every run.
struct Dice(u64);

impl Dice {
    fn roll(&mut self) -> f32 {
        self.0 = self.0.wrapping_mul(6364136223846793005).wrapping_add(1442695040888963407);
        ((self.0 >> 40) as f32) / ((1u64 << 24) as f32)
    }
}

#[test]
fn sphere_at_the_origin_is_hit_head_on() {
    for &r in [1.0f32, 2.0, 0.5, 4.0].iter() {
        let material = paint(0.5);
        let sphere = Sphere::new(v(0.0, 0.0, 0.0), s(r), material);
        let ray = ray([0.0, 0.0, 5.0], [0.0, 0.0, -1.0]);
        let mut record = HitRecord::default();
        assert!(sphere.hit(&crossing(&ray, &sphere), s(0.001), s(f32::MAX), &mut record));
        assert_eq!(f(record.t), 5.0 - r);
        assert_eq!(xyz(record.normal), [0.0, 0.0, 1.0]);
        assert_eq!(xyz(record.p), [0.0, 0.0, r]);
        assert!(record.front_face);
        assert!(record.material.is_some());
        assert!(record.override_color.is_none());
    }
}

#[test]
fn sphere_whose_skin_is_within_a_thousandth_is_hit_on_its_far_side() {
    let r = 4.9995f32;
    let sphere = Sphere::new(v(0.0, 0.0, 0.0), s(r), paint(0.5));
    let ray = ray([0.0, 0.0, 5.0], [0.0, 0.0, -1.0]);
    let met = crossing(&ray, &sphere);
    assert!(f(met.near.t) < 0.001 && f(met.near.t) > 0.0);
    let mut record = HitRecord::default();
    assert!(sphere.hit(&met, s(0.001), s(f32::MAX), &mut record));
    assert_eq!(record.t.bits, met.far.t.bits);
    assert!((f(record.t) - (5.0 + r)).abs() < 1e-3);
    assert!(!record.front_face);
    let outward = xyz(met.far.outward_normal);
    assert_eq!(xyz(record.normal), [-outward[0], -outward[1], -outward[2]]);
    assert!((f(record.normal.z) - 1.0).abs() < 1e-6);
}

#[test]
fn sphere_is_missed_beside_it() {
    let sphere = Sphere::new(v(0.0, 0.0, 0.0), s(1.0), paint(0.5));
    let ray = ray([2.0, 0.0, 5.0], [0.0, 0.0, -1.0]);
    let mut record: HitRecord<Paint> = HitRecord::default();
    record.t = s(7.0);
    assert!(!sphere.hit(&crossing(&ray, &sphere), s(0.001), s(f32::MAX), &mut record));
    assert_eq!(f(record.t), 7.0);
    assert!(record.material.is_none());
}

#[test]
fn sphere_seen_from_inside_reports_the_far_root_and_the_back_face() {
    let sphere = Sphere::new(v(0.0, 0.0, 0.0), s(2.0), paint(0.5));
    let ray = ray([0.0, 0.0, 0.0], [0.0, 0.0, -1.0]);
    let mut record = HitRecord::default();
    assert!(sphere.hit(&crossing(&ray, &sphere), s(0.001), s(f32::MAX), &mut record));
    assert_eq!(f(record.t), 2.0);
    assert!(!record.front_face);
    assert_eq!(xyz(record.normal), [0.0, 0.0, 1.0]);
}

#[test]
fn sphere_beyond_t_max_is_missed() {
    let sphere = Sphere::new(v(0.0, 0.0, 0.0), s(1.0), paint(0.5));
    let ray = ray([0.0, 0.0, 5.0], [0.0, 0.0, -1.0]);
    let mut record = HitRecord::default();
    assert!(!sphere.hit(&crossing(&ray, &sphere), s(0.001), s(3.9), &mut record));
    assert!(sphere.hit(&crossing(&ray, &sphere), s(0.001), s(4.0), &mut record));
    assert!(!sphere.hit(&crossing(&ray, &sphere), s(6.5), s(f32::MAX), &mut record));
    assert!(sphere.hit(&crossing(&ray, &sphere), s(4.5), s(f32::MAX), &mut record));
    assert_eq!(f(record.t), 6.0);
}

#[test]
fn list_reports_the_nearer_of_two_overlapping_spheres() {
    let near = Arc::new(Paint { tint: 0.25, glow: 0.0, absorbs: false });
    let far = Arc::new(Paint { tint: 0.75, glow: 0.0, absorbs: false });
    let a = ball(0.0, 0.0, 0.0, 1.0, &near);
    let b = ball(0.0, 0.0, -0.5, 1.0, &far);
    let ray = ray([0.0, 0.0, 5.0], [0.0, 0.0, -1.0]);
    for order in [[a.clone(), b.clone()], [b.clone(), a.clone()]].iter() {
        let mut list = HittableList::new();
        list.add(order[0].clone());
        list.add(order[1].clone());
        let mut record = HitRecord::default();
        assert!(list.hit(&ray, s(0.001), s(f32::MAX), &mut record));
        assert_eq!(f(record.t), 4.0);
        assert_eq!(record.material.as_ref().unwrap().tint, 0.25);
    }
}

#[test]
fn list_of_nothing_hits_nothing_and_keeps_the_box() {
    let list: HittableList<Shape> = HittableList::new();
    assert_eq!(list.items.len(), 0);
    let mut record = HitRecord::default();
    assert!(!list.hit(&ray([0.0, 0.0, 5.0], [0.0, 0.0, -1.0]), s(0.001), s(f32::MAX), &mut record));
    let mut b = AABB::new(v(1.0, 2.0, 3.0), v(4.0, 5.0, 6.0));
    assert!(list.bounding_box(s(0.0), s(1.0), &mut b));
    assert_eq!(corners(&b), [[1.0, 2.0, 3.0], [4.0, 5.0, 6.0]]);
}

#[test]
fn list_box_is_the_union_of_its_items() {
    let m = paint(0.5);
    let mut list = HittableList::new();
    list.add(ball(0.0, 0.0, 0.0, 1.0, &m));
    list.add(ball(3.0, 1.0, -2.0, 0.5, &m));
    list.add(ball(-4.0, 0.0, 1.0, 2.0, &m));
    let mut b = AABB::new(v(9.0, 9.0, 9.0), v(-9.0, -9.0, -9.0));
    assert!(list.bounding_box(s(0.0), s(1.0), &mut b));
    assert_eq!(corners(&b), [[-6.0, -2.0, -2.5], [3.5, 2.0, 3.0]]);
}

#[test]
fn list_with_an_unbounded_item_has_no_box() {
    let m = paint(0.5);
    let mut list = HittableList::new();
    list.add(ball(0.0, 0.0, 0.0, 1.0, &m));
    list.add(Arc::new(Shape::Unbounded));
    let mut b = AABB::default();
    assert!(!list.bounding_box(s(0.0), s(1.0), &mut b));
}

fn cloud(n: usize, dice: &mut Dice, material: &Arc<Paint>) -> Vec<Arc<Shape>> {
    (0..n)
        .map(|_| {
            ball(
                20.0 * dice.roll() - 10.0,
                20.0 * dice.roll() - 10.0,
                20.0 * dice.roll() - 10.0,
                0.1 + dice.roll(),
                material,
            )
        })
        .collect()
}

fn union(objects: &[Arc<Shape>]) -> AABB {
    let mut all = box_of(&objects[0]);
    for o in objects.iter().skip(1) {
        all = all & box_of(o);
    }
    all
}

fn gather_leaves(child: &BVHChild<Shape>, seen: &mut Vec<Arc<Shape>>) {
    match child {
        BVHChild::Item(h) => {
            if !seen.iter().any(|o| Arc::ptr_eq(o, h)) {
                seen.push(h.clone());
            }
        },
        BVHChild::Node(n) => {
            gather_leaves(&n.left, seen);
            gather_leaves(&n.right, seen);
        },
    }
}

#[test]
fn bvh_root_box_is_the_union_whatever_axes_are_drawn() {
    let m = paint(0.5);
    let mut dice = Dice(7);
    for &n in [1usize, 2, 3, 4, 5, 8, 13, 40].iter() {
        let objects = cloud(n, &mut dice, &m);
        let expected = corners(&union(&objects));
        for _ in 0..100 {
            let root = BVHNode::new(&objects, s(0.0), s(f32::MAX));
            assert_eq!(corners(&root.aabb), expected);
            let mut b = AABB::default();
            assert!(root.bounding_box(s(0.0), s(1.0), &mut b));
            assert_eq!(corners(&b), expected);
        }
    }
}

#[test]
fn bvh_over_one_object_holds_it_twice() {
    let m = paint(0.5);
    let only = ball(1.0, 2.0, 3.0, 1.0, &m);
    let root = BVHNode::new(&[only.clone()], s(0.0), s(f32::MAX));
    match (&root.left, &root.right) {
        (BVHChild::Item(l), BVHChild::Item(r)) => {
            assert!(Arc::ptr_eq(l, &only));
            assert!(Arc::ptr_eq(r, &only));
        },
        _ => panic!("a node over one object has two items"),
    }
    assert_eq!(corners(&root.aabb), [[0.0, 1.0, 2.0], [2.0, 3.0, 4.0]]);
}

#[test]
fn bvh_over_two_objects_puts_the_earlier_box_left() {
    let m = paint(0.5);
    let low = ball(-5.0, -5.0, -5.0, 1.0, &m);
    let high = ball(5.0, 5.0, 5.0, 1.0, &m);
    for objects in [[low.clone(), high.clone()], [high.clone(), low.clone()]].iter() {
        for _ in 0..20 {
            let root = BVHNode::new(objects, s(0.0), s(f32::MAX));
            match (&root.left, &root.right) {
                (BVHChild::Item(l), BVHChild::Item(r)) => {
                    assert!(Arc::ptr_eq(l, &low));
                    assert!(Arc::ptr_eq(r, &high));
                },
                _ => panic!("a node over two objects has two items"),
            }
        }
    }
}

#[test]
fn bvh_draws_its_axes_at_random() {
    let m = paint(0.5);
    let a = ball(-5.0, 5.0, 5.0, 1.0, &m);
    let b = ball(5.0, -5.0, -5.0, 1.0, &m);
    let objects = [a.clone(), b.clone()];
    let mut a_left = 0;
    let mut b_left = 0;
    for _ in 0..400 {
        let root = BVHNode::new(&objects, s(0.0), s(f32::MAX));
        match &root.left {
            BVHChild::Item(l) if Arc::ptr_eq(l, &a) => a_left += 1,
            BVHChild::Item(l) if Arc::ptr_eq(l, &b) => b_left += 1,
            _ => panic!("a node over two objects has two items"),
        }
    }
    assert_eq!(a_left + b_left, 400);
    assert!(a_left > 50, "the x axis was drawn {} times in 400", a_left);
    assert!(b_left > 150, "the other axes were drawn {} times in 400", b_left);
}

#[test]
fn box_compare_puts_the_earlier_box_later() {
    let m = paint(0.5);
    let low = ball(-5.0, 0.0, 3.0, 1.0, &m);
    let high = ball(5.0, 0.0, -3.0, 1.0, &m);
    assert_eq!(box_compare(&low, &high, 0), Ordering::Greater);
    assert_eq!(box_compare(&high, &low, 0), Ordering::Less);
    assert_eq!(box_compare(&low, &high, 1), Ordering::Less);
    assert_eq!(box_compare(&high, &low, 1), Ordering::Less);
    assert_eq!(box_compare(&low, &high, 2), Ordering::Less);
    assert_eq!(box_compare(&high, &low, 2), Ordering::Greater);
    assert_eq!(box_compare(&low, &low, 0), Ordering::Less);
}

#[test]
fn bvh_sorts_its_objects_before_it_splits_them() {
    let m = paint(0.5);
    let objects: Vec<Arc<Shape>> =
        [3.0f32, -7.0, 9.0, 1.0, -2.0, 5.0, 0.0].iter().map(|x| ball(*x, *x, *x, 0.25, &m)).collect();
    for _ in 0..20 {
        let root = BVHNode::new(&objects, s(0.0), s(f32::MAX));
        let mut left = Vec::new();
        let mut right = Vec::new();
        gather_leaves(&root.left, &mut left);
        gather_leaves(&root.right, &mut right);
        let lowest = |side: &Vec<Arc<Shape>>| {
            side.iter().map(|o| xyz(box_of(o).minimum)[0]).fold(f32::INFINITY, f32::min)
        };
        let highest = |side: &Vec<Arc<Shape>>| {
            side.iter().map(|o| xyz(box_of(o).minimum)[0]).fold(f32::NEG_INFINITY, f32::max)
        };
        assert_eq!(left.len(), 3);
        assert_eq!(right.len(), 4);
        assert!(lowest(&left) >= highest(&right));
    }
}

#[test]
fn bvh_holds_every_object_and_splits_in_the_middle() {
    let m = paint(0.5);
    let mut dice = Dice(11);
    for &n in [3usize, 4, 7, 16, 33].iter() {
        let objects = cloud(n, &mut dice, &m);
        let root = BVHNode::new(&objects, s(0.0), s(f32::MAX));
        let mut left = Vec::new();
        let mut right = Vec::new();
        gather_leaves(&root.left, &mut left);
        gather_leaves(&root.right, &mut right);
        for o in objects.iter() {
            assert!(left.iter().chain(right.iter()).any(|p| Arc::ptr_eq(o, p)));
        }
        for p in left.iter().chain(right.iter()) {
            assert!(objects.iter().any(|o| Arc::ptr_eq(o, p)));
        }
        assert_eq!(left.len(), n / 2);
        assert_eq!(right.len(), n - n / 2);
    }
}

#[test]
fn bvh_finds_what_the_list_finds() {
    let m = paint(0.5);
    let mut dice = Dice(3);
    let objects = cloud(60, &mut dice, &m);
    let mut list = HittableList::new();
    for o in objects.iter() {
        list.add(o.clone());
    }
    let root = BVHNode::new(&objects, s(0.0), s(f32::MAX));
    let mut hits = 0;
    for _ in 0..400 {
        let from = [30.0 * dice.roll() - 15.0, 30.0 * dice.roll() - 15.0, 20.0];
        let to = [20.0 * dice.roll() - 10.0, 20.0 * dice.roll() - 10.0, 0.0];
        let ray = ray(from, [to[0] - from[0], to[1] - from[1], to[2] - from[2]]);
        let mut by_list = HitRecord::default();
        let mut by_tree = HitRecord::default();
        let a = list.hit(&ray, s(0.001), s(f32::MAX), &mut by_list);
        let b = root.hit(&|b: &AABB| slabs(&ray, b), &ray, s(0.001), s(f32::MAX), &mut by_tree);
        assert_eq!(a, b);
        if a {
            hits += 1;
            assert_eq!(by_list.t.bits, by_tree.t.bits);
            assert_eq!(xyz(by_list.p), xyz(by_tree.p));
        }
    }
    assert!(hits > 10);
}

#[test]
fn bvh_is_missed_where_its_box_is_missed() {
    let m = paint(0.5);
    let objects = vec![ball(0.0, 0.0, 0.0, 1.0, &m), ball(3.0, 0.0, 0.0, 1.0, &m)];
    let root = BVHNode::new(&objects, s(0.0), s(f32::MAX));
    let ray = ray([0.0, 0.0, 5.0], [0.0, 0.0, -1.0]);
    let mut record = HitRecord::default();
    let blind = |_: &AABB| {
        let gone = Slab { inv_d: s(1.0), t0: s(-2.0), t1: s(-1.0) };
        [gone, gone, gone]
    };
    assert!(!root.hit(&blind, &ray, s(0.001), s(f32::MAX), &mut record));
    assert!(record.material.is_none());
    assert!(root.hit(&|b: &AABB| slabs(&ray, b), &ray, s(0.001), s(f32::MAX), &mut record));
    assert_eq!(f(record.t), 4.0);
}

#[test]
fn surface_color_blends_only_what_was_sent_on() {
    let own = v(0.5, 0.25, 0.125);
    assert_eq!(xyz(surface_color(own, None, &blend)), [0.5, 0.25, 0.125]);
    let bounce = Some((v(0.5, 0.5, 0.5), v(1.0, 2.0, 4.0)));
    assert_eq!(xyz(surface_color(own, bounce, &blend)), [1.0, 1.25, 2.125]);
}

#[test]
fn list_by_default_is_empty() {
    let list: HittableList<Shape> = HittableList::default();
    assert!(list.items.is_empty());
}

#[test]
fn ray_color_with_no_depth_is_black() {
    let world = Shape::Ball(Sphere::new(v(0.0, 0.0, 0.0), s(1.0), lamp(3.0)));
    let background = v(0.25, 0.5, 0.75);
    for &depth in [0, -1, -50, i32::MIN].iter() {
        for ray in [ray([0.0, 0.0, 5.0], [0.0, 0.0, -1.0]), ray([9.0, 0.0, 5.0], [0.0, 0.0, -1.0])]
            .iter()
        {
            let c = ray_color(ray, &background, &world, depth, &blend);
            assert_eq!([c.x.bits, c.y.bits, c.z.bits], [0, 0, 0]);
        }
    }
}

#[test]
fn ray_color_of_a_miss_is_the_background() {
    let world = Shape::Ball(Sphere::new(v(0.0, 0.0, 0.0), s(1.0), lamp(3.0)));
    let background = v(0.25, 0.5, 0.75);
    let c = ray_color(&ray([9.0, 0.0, 5.0], [0.0, 0.0, -1.0]), &background, &world, 5, &blend);
    assert_eq!(xyz(c), [0.25, 0.5, 0.75]);
}

#[test]
fn ray_color_of_a_light_is_its_glow() {
    let world = Shape::Ball(Sphere::new(v(0.0, 0.0, 0.0), s(1.0), lamp(3.0)));
    let background = v(0.25, 0.5, 0.75);
    let c = ray_color(&ray([0.0, 0.0, 5.0], [0.0, 0.0, -1.0]), &background, &world, 5, &blend);
    assert_eq!(xyz(c), [3.0, 3.0, 3.0]);
}

#[test]
fn ray_color_follows_one_bounce_to_the_background() {
    let world = Shape::Ball(Sphere::new(v(0.0, 0.0, 0.0), s(1.0), paint(0.5)));
    let background = v(0.25, 0.5, 0.75);
    let head_on = ray([0.0, 0.0, 5.0], [0.0, 0.0, -1.0]);
    let c = ray_color(&head_on, &background, &world, 2, &blend);
    assert_eq!(xyz(c), [0.125, 0.25, 0.375]);
    let c = ray_color(&head_on, &background, &world, 1, &blend);
    assert_eq!(xyz(c), [0.0, 0.0, 0.0]);
}

#[test]
fn ray_color_shows_the_colour_that_a_record_carries() {
    struct Marked;
    impl Hittable for Marked {
        type Mat = Paint;

        fn hit(&self, _: &Ray, _: Scalar, _: Scalar, record: &mut HitRecord<Paint>) -> bool {
            record.t = s(1.0);
            record.material = Some(paint(0.5));
            record.override_color = Some(v(0.5, 0.25, 1.0));
            true
        }

        fn bounding_box(&self, _: Scalar, _: Scalar, _: &mut AABB) -> bool {
            false
        }
    }
    let c = ray_color(&ray([0.0; 3], [0.0, 0.0, -1.0]), &v(0.0, 0.0, 0.0), &Marked, 3, &blend);
    assert_eq!(xyz(c), [0.5, 0.25, 1.0]);
}

#[test]
fn ray_color_takes_a_hit_without_material_for_a_miss() {
    struct Bare;
    impl Hittable for Bare {
        type Mat = Paint;

        fn hit(&self, _: &Ray, _: Scalar, _: Scalar, record: &mut HitRecord<Paint>) -> bool {
            record.t = s(1.0);
            true
        }

        fn bounding_box(&self, _: Scalar, _: Scalar, _: &mut AABB) -> bool {
            false
        }
    }
    let c = ray_color(&ray([0.0; 3], [0.0, 0.0, -1.0]), &v(0.5, 0.5, 0.5), &Bare, 3, &blend);
    assert_eq!(xyz(c), [0.5, 0.5, 0.5]);
}

#[test]
fn ray_color_asks_from_a_thousandth_on() {
    struct Probe;
    impl Hittable for Probe {
        type Mat = Paint;

        fn hit(&self, _: &Ray, t_min: Scalar, t_max: Scalar, _: &mut HitRecord<Paint>) -> bool {
            assert_eq!(f(t_min), 0.001);
            assert_eq!(f(t_max), f32::MAX);
            false
        }

        fn bounding_box(&self, _: Scalar, _: Scalar, _: &mut AABB) -> bool {
            false
        }
    }
    let c = ray_color(&ray([0.0; 3], [0.0, 0.0, -1.0]), &v(1.0, 1.0, 1.0), &Probe, 1, &blend);
    assert_eq!(xyz(c), [1.0, 1.0, 1.0]);
}

#[test]
fn two_by_two_picture_of_a_sphere_under_a_white_sky() {
    let texture = SolidColor::new(v(0.5, 0.5, 0.5));
    let lambertian = Lambertian::new(texture);
    struct Matte(Arc<Lambertian<SolidColor>>);
    impl Material<Matte> for Matte {
        fn scatter(
            &self,
            _ray_in: &Ray,
            rec: &HitRecord<Matte>,
            alb: &mut Color,
            scattered: &mut Ray,
            _pdf: &mut Scalar,
        ) -> bool {
            let candidate = add(rec.normal, v(0.0, 1.0, 0.0));
            self.0.scatter(rec, candidate, alb, scattered)
        }

        fn emitted(&self, _rec: &HitRecord<Matte>) -> Color {
            v(0.0, 0.0, 0.0)
        }
    }
    struct World(Arc<Sphere<Matte>>);
    impl Hittable for World {
        type Mat = Matte;

        fn hit(&self, r: &Ray, t_min: Scalar, t_max: Scalar, rec: &mut HitRecord<Matte>) -> bool {
            let oc = sub(r.orig, self.0.center);
            let a = dot(r.dir, r.dir);
            let half_b = dot(oc, r.dir);
            let c = dot(oc, oc) - f(self.0.radius) * f(self.0.radius);
            let discriminant = half_b * half_b - a * c;
            let sqrtd = discriminant.sqrt();
            let one = |t: f32| {
                let p = at(r, t);
                let n = scale(sub(p, self.0.center), 1.0 / f(self.0.radius));
                Root { t: s(t), p, outward_normal: n, u: s(0.0), v: s(0.0), facing: s(dot(r.dir, n)) }
            };
            let crossing = SphereCrossing {
                discriminant: s(discriminant),
                near: one((-half_b - sqrtd) / a),
                far: one((-half_b + sqrtd) / a),
            };
            self.0.hit(&crossing, t_min, t_max, rec)
        }

        fn bounding_box(&self, _: Scalar, _: Scalar, _: &mut AABB) -> bool {
            false
        }
    }
    let world = World(Sphere::new(v(0.0, 0.0, -1.0), s(1.0), Arc::new(Matte(lambertian))));
    let white = v(1.0, 1.0, 1.0);
    let mut dice = Dice(5);
    let samples = 16;
    let mut picture = Vec::new();
    for y in 0..2 {
        for x in 0..2 {
            let mut sum = v(0.0, 0.0, 0.0);
            for _ in 0..samples {
                let su = (x as f32 + dice.roll()) / 1.0;
                let sv = 1.0 - (y as f32 + dice.roll()) / 1.0;
                let eye = v(0.0, 0.0, 9.0);
                let target = v(-4.0 + 8.0 * su / 2.0, -4.0 + 8.0 * sv / 2.0, -1.0);
                let r = Ray::new(eye, sub(target, eye));
                sum = add(sum, ray_color(&r, &white, &world, 1, &blend));
            }
            picture.push(xyz(scale(sum, 1.0 / samples as f32)));
        }
    }
    assert_eq!(picture.len(), 4);
    let mut shaded = 0;
    for pixel in picture.iter() {
        assert!(pixel[0] > 0.0 && pixel[1] > 0.0 && pixel[2] > 0.0);
        assert!(pixel[0] <= 1.0);
        assert_eq!(pixel[0], pixel[1]);
        assert_eq!(pixel[1], pixel[2]);
        if pixel[0] < 1.0 {
            shaded += 1;
        }
    }
    assert!(shaded > 0);
}

#[test]
fn translate_moves_the_hit_and_the_box() {
    let m = paint(0.5);
    let moved = Shape::Moved(Translate::new(ball(0.0, 0.0, 0.0, 1.0, &m), v(3.0, 0.0, 0.0)));
    let mut record = HitRecord::default();
    let ray = ray([3.0, 0.0, 5.0], [0.0, 0.0, -1.0]);
    assert!(moved.hit(&ray, s(0.001), s(f32::MAX), &mut record));
    assert_eq!(f(record.t), 4.0);
    assert_eq!(xyz(record.p), [3.0, 0.0, 1.0]);
    assert_eq!(xyz(record.normal), [0.0, 0.0, 1.0]);
    assert!(record.front_face);
    let mut untouched = HitRecord::default();
    untouched.t = s(9.0);
    assert!(!moved.hit(
        &Ray::new(v(0.0, 0.0, 5.0), v(0.0, 0.0, -1.0)),
        s(0.001),
        s(f32::MAX),
        &mut untouched
    ));
    assert_eq!(f(untouched.t), 9.0);
    assert_eq!(corners(&box_of(&moved)), [[2.0, -1.0, -1.0], [4.0, 1.0, 1.0]]);
    let lost = Shape::Moved(Translate::new(Arc::new(Shape::Unbounded), v(3.0, 0.0, 0.0)));
    let mut b = AABB::default();
    assert!(!lost.bounding_box(s(0.0), s(1.0), &mut b));
}

fn turned_corners(sin: f32, cos: f32) -> impl Fn(&AABB) -> [Vec3; 8] {
    move |b: &AABB| {
        let (lo, hi) = (xyz(b.minimum), xyz(b.maximum));
        let mut out = [v(0.0, 0.0, 0.0); 8];
        let mut n = 0;
        for i in 0..2 {
            for j in 0..2 {
                for k in 0..2 {
                    let x = i as f32 * hi[0] + lo[0] * (1 - i) as f32;
                    let y = j as f32 * hi[1] + lo[1] * (1 - j) as f32;
                    let z = k as f32 * hi[2] + lo[2] * (1 - k) as f32;
                    out[n] = v(cos * x + sin * z, y, -sin * x + cos * z);
                    n += 1;
                }
            }
        }
        out
    }
}

#[test]
fn rotate_by_a_quarter_turn_swaps_the_axes() {
    let m = paint(0.5);
    let (sin, cos) = (1.0f32, 0.0f32);
    let turned = RotateY::new(ball(2.0, 0.0, 0.0, 1.0, &m), s(sin), s(cos), &turned_corners(sin, cos));
    assert!(turned.has_box);
    assert_eq!(corners(&turned.bbox), [[-1.0, -1.0, -3.0], [1.0, 1.0, -1.0]]);
    let shape = Shape::Turned(turned);
    let mut record = HitRecord::default();
    let ray = ray([0.0, 0.0, 5.0], [0.0, 0.0, -1.0]);
    assert!(shape.hit(&ray, s(0.001), s(f32::MAX), &mut record));
    assert_eq!(f(record.t), 6.0);
    assert_eq!(xyz(record.p), [0.0, 0.0, -1.0]);
    // The normal is turned back, and then turned against the ray as the
    // object saw it, along x: the two are at right angles here, which counts
    // as the back face.
    assert_eq!(xyz(record.normal), [0.0, 0.0, -1.0]);
    assert!(!record.front_face);
    assert_eq!(corners(&box_of(&shape)), [[-1.0, -1.0, -3.0], [1.0, 1.0, -1.0]]);
}

#[test]
fn rotate_by_no_angle_changes_nothing() {
    let m = paint(0.5);
    let turned = RotateY::new(ball(0.0, 0.0, 0.0, 1.0, &m), s(0.0), s(1.0), &turned_corners(0.0, 1.0));
    assert_eq!(corners(&turned.bbox), [[-1.0, -1.0, -1.0], [1.0, 1.0, 1.0]]);
    let shape = Shape::Turned(turned);
    let mut record = HitRecord::default();
    assert!(shape.hit(&ray([0.0, 0.0, 5.0], [0.0, 0.0, -1.0]), s(0.001), s(f32::MAX), &mut record));
    assert_eq!(f(record.t), 4.0);
    assert_eq!(xyz(record.p), [0.0, 0.0, 1.0]);
    assert_eq!(xyz(record.normal), [0.0, 0.0, 1.0]);
    assert!(record.front_face);
}

#[test]
fn rotate_of_an_unbounded_object_has_no_box() {
    let turned = RotateY::new(Arc::new(Shape::Unbounded), s(0.0), s(1.0), &turned_corners(0.0, 1.0));
    assert!(!turned.has_box);
    let mut b = AABB::default();
    assert!(!turned.bounding_box(s(0.0), s(1.0), &mut b));
}

#[test]
fn nested_scene_is_hit_through_every_layer() {
    let m = paint(0.5);
    let inner = vec![ball(0.0, 0.0, 0.0, 1.0, &m), ball(0.0, 3.0, 0.0, 1.0, &m)];
    let tree = Arc::new(Shape::Tree(BVHNode::new(&inner, s(0.0), s(f32::MAX))));
    let moved = Arc::new(Shape::Moved(Translate::new(tree, v(0.0, 0.0, -10.0))));
    let mut list = HittableList::new();
    list.add(moved);
    list.add(ball(0.0, 3.0, -4.0, 1.0, &m));
    let world = Shape::Many(list);
    let mut record = HitRecord::default();
    assert!(world.hit(&ray([0.0, 0.0, 5.0], [0.0, 0.0, -1.0]), s(0.001), s(f32::MAX), &mut record));
    assert_eq!(f(record.t), 14.0);
    assert!(world.hit(&ray([0.0, 3.0, 5.0], [0.0, 0.0, -1.0]), s(0.001), s(f32::MAX), &mut record));
    assert_eq!(f(record.t), 8.0);
    assert_eq!(corners(&box_of(&world)), [[-1.0, -1.0, -11.0], [1.0, 4.0, -3.0]]);
}
