use crate::hittable::share;
use crate::hittable::HitRecord;
use crate::hittable::Hittable;
use crate::material::Material;
use crate::ray::Ray;
use crate::scalar::Scalar;
use crate::scalar::MAX_BITS;
use crate::scalar::THOUSANDTH_BITS;
use crate::vec3::Color;
use crate::vec3::Vec3;
use vstd::prelude::*;

verus! {

/// One bounce of a path: what the surface took from the light, where the ray
/// went on, and the light that came back along it.
pub struct Bounce {
    pub attenuation: Color,
    pub scattered: Ray,
    pub incoming: Color,
}

/// What a ray meets in the world: the nearest hit from a thousandth on, with
/// no limit on the far side, as long as the hit names a material.
pub open spec fn met<T: Hittable>(ray: Ray, world: T) -> Option<HitRecord<T::Mat>> {
    match world.found(
        ray,
        Scalar { bits: THOUSANDTH_BITS },
        Scalar { bits: MAX_BITS },
        HitRecord::<T::Mat>::blank(),
    ) {
        Some(rec) => if rec.material is Some {
            Some(rec)
        } else {
            None
        },
        None => None,
    }
}

/// Whether `out` is a colour that `ray_color` may return.
///
/// With no depth left the colour is black. A ray that meets nothing sees the
/// background. A hit that carries a colour of its own shows that colour.
/// Otherwise the surface shines with its own light. Where its material may
/// absorb the ray, that light may be all. Where the material may send the
/// ray on, with some attenuation and along some new ray, `blend` puts
/// together that light, that attenuation and what comes back along that new
/// ray with one step less of depth.
pub open spec fn colored<T: Hittable, F: Fn(Color, Color, Color) -> Color>(
    ray: Ray,
    background: Color,
    world: T,
    depth: int,
    blend: F,
    out: Color,
) -> bool where T::Mat: Material<T::Mat>
    decreases depth,
{
    if depth <= 0 {
        out == Vec3::origin()
    } else {
        match met(ray, world) {
            None => out == background,
            Some(rec) => match rec.override_color {
                Some(c) => out == c,
                None => {
                    let material = rec.material.unwrap();
                    let emitted = material.glow(rec);
                    ||| material.may_absorb(ray, rec) && out == emitted
                    ||| exists|bounce: Bounce|
                        {
                            &&& #[trigger] call_ensures(
                                blend,
                                (emitted, bounce.attenuation, bounce.incoming),
                                out,
                            )
                            &&& material.may_scatter(
                                ray,
                                rec,
                                bounce.attenuation,
                                bounce.scattered,
                            )
                            &&& colored(
                                bounce.scattered,
                                background,
                                world,
                                depth - 1,
                                blend,
                                bounce.incoming,
                            )
                        }
                },
            },
        }
    }
}

/// The light that leaves a surface: its own where the ray was absorbed, else
/// its own put together with what comes back, `bounce` holding the
/// attenuation and the light that comes in.
pub fn surface_color<F: Fn(Color, Color, Color) -> Color>(
    emitted: Color,
    bounce: Option<(Color, Color)>,
    blend: &F,
) -> (c: Color)
    requires
        forall|emitted: Color, attenuation: Color, incoming: Color|
            call_requires(*blend, (emitted, attenuation, incoming)),
    ensures
        match bounce {
            None => c == emitted,
            Some((attenuation, incoming)) => call_ensures(
                *blend,
                (emitted, attenuation, incoming),
                c,
            ),
        },
{
    match bounce {
        None => emitted,
        Some((attenuation, incoming)) => blend(emitted, attenuation, incoming),
    }
}

/// The light that arrives along `ray`, followed for at most `depth` bounces.
/// `blend` computes, from a surface's own light, its attenuation and the light
/// that comes in, the light that goes out: the first plus the product of the
/// other two.
pub fn ray_color<T: Hittable, F: Fn(Color, Color, Color) -> Color>(
    ray: &Ray,
    background: &Color,
    world: &T,
    depth: i32,
    blend: &F,
) -> (c: Color) where T::Mat: Material<T::Mat>
    requires
        forall|emitted: Color, attenuation: Color, incoming: Color|
            call_requires(*blend, (emitted, attenuation, incoming)),
    ensures
        colored(*ray, *background, *world, depth as int, *blend, c),
        depth <= 0 ==> c == Vec3::origin(),
        depth > 0 && met(*ray, *world) is None ==> c == *background,
    decreases depth,
{
    let mut rec = HitRecord::default();
    if depth <= 0 {
        return Color::new(Scalar::zero(), Scalar::zero(), Scalar::zero());
    }
    if world.hit(ray, Scalar::new(THOUSANDTH_BITS), Scalar::max_value(), &mut rec)
        && rec.material.is_some() {
        if let Some(override_color) = rec.override_color {
            return override_color;
        }
        let material = match &rec.material {
            Some(m) => share(m),
            None => { return *background; },
        };
        let mut scattered = Ray::default();
        let mut albedo = Color::default();
        let emitted = material.emitted(&rec);
        let mut pdf = Scalar::zero();
        if !material.scatter(ray, &rec, &mut albedo, &mut scattered, &mut pdf) {
            return surface_color(emitted, None, blend);
        }
        let incoming = ray_color(&scattered, background, world, depth - 1, blend);
        let out = surface_color(emitted, Some((albedo, incoming)), blend);
        proof {
            let bounce = Bounce { attenuation: albedo, scattered, incoming };
            assert(call_ensures(*blend, (emitted, bounce.attenuation, bounce.incoming), out));
        }
        return out;
    }
    *background
}

/// Light that falls on a surface which sends no ray on ends there: the
/// colour is the surface's own light.
pub proof fn lemma_absorbed_at_once<T: Hittable, F: Fn(Color, Color, Color) -> Color>(
    ray: Ray,
    background: Color,
    world: T,
    depth: int,
    blend: F,
    out: Color,
) where T::Mat: Material<T::Mat>
    requires
        depth > 0,
        met(ray, world) matches Some(rec) && rec.override_color is None && forall|
            attenuation: Color,
            scattered: Ray,
        | !#[trigger] rec.material.unwrap().may_scatter(ray, rec, attenuation, scattered),
        colored(ray, background, world, depth, blend, out),
    ensures
        out == met(ray, world).unwrap().material.unwrap().glow(met(ray, world).unwrap()),
{
}

/// Light that falls on a surface which absorbs no ray is followed on: the
/// colour is a blend of the surface's own light with what comes back along a
/// ray that the material may send on.
pub proof fn lemma_followed_on<T: Hittable, F: Fn(Color, Color, Color) -> Color>(
    ray: Ray,
    background: Color,
    world: T,
    depth: int,
    blend: F,
    out: Color,
) where T::Mat: Material<T::Mat>
    requires
        depth > 0,
        met(ray, world) matches Some(rec) && rec.override_color is None
            && !rec.material.unwrap().may_absorb(ray, rec),
        colored(ray, background, world, depth, blend, out),
    ensures
        ({
            let rec = met(ray, world).unwrap();
            let material = rec.material.unwrap();
            exists|bounce: Bounce|
                {
                    &&& #[trigger] call_ensures(
                        blend,
                        (material.glow(rec), bounce.attenuation, bounce.incoming),
                        out,
                    )
                    &&& material.may_scatter(ray, rec, bounce.attenuation, bounce.scattered)
                    &&& colored(
                        bounce.scattered,
                        background,
                        world,
                        depth - 1,
                        blend,
                        bounce.incoming,
                    )
                }
        }),
{
}

} // verus!
