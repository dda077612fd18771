use crate::hittable::HitRecord;
use crate::ray::Ray;
use crate::scalar::Scalar;
use crate::scalar::ONE_BITS;
use crate::texture::Texture;
use crate::vec3::Color;
use crate::vec3::Vec3;
use std::sync::Arc;
use vstd::prelude::*;

verus! {

/// The faces of a surface that a light shines from.
pub enum Side {
    Front,
    Back,
    Double,
}

/// How a surface answers a ray: it may send the ray on, and it may shine.
///
/// `M` is the material type that the records of the scene refer to. An
/// implementation that does its arithmetic outside verified code leaves
/// `glow`, `may_scatter` and `may_absorb` as they stand here. The body of
/// `glow` says nothing of such an implementation: it is one unknown value,
/// written only so that none has to be written elsewhere, and no proof in
/// this library rests on it. The other two then allow everything.
pub trait Material<M>: Sync + Send {
    /// The light that `emitted` reports.
    open spec fn glow(&self, rec: HitRecord<M>) -> Color {
        arbitrary()
    }

    /// Whether the material may send the ray on with this attenuation and
    /// along this new ray. A material that draws its direction at random
    /// may send one ray on in many ways. A material that says nothing here
    /// may send it on in any way.
    open spec fn may_scatter(
        &self,
        ray_in: Ray,
        rec: HitRecord<M>,
        attenuation: Color,
        scattered: Ray,
    ) -> bool {
        true
    }

    /// Whether the material may absorb the ray. A material that says
    /// nothing here may absorb any ray.
    open spec fn may_absorb(&self, ray_in: Ray, rec: HitRecord<M>) -> bool {
        true
    }

    /// Sends the ray on, or absorbs it. On `true`, `alb` holds the
    /// attenuation and `scattered` the new ray, as the material may send it
    /// on; `false` is given only for a ray that it may absorb.
    fn scatter(
        &self,
        ray_in: &Ray,
        hit_record: &HitRecord<M>,
        alb: &mut Color,
        scattered: &mut Ray,
        pdf: &mut Scalar,
    ) -> (b: bool)
        ensures
            b ==> self.may_scatter(*ray_in, *hit_record, *final(alb), *final(scattered)),
            !b ==> self.may_absorb(*ray_in, *hit_record),
    ;

    fn scattering_pdf(
        &self,
        _ray_in: &Ray,
        _hit_record: &HitRecord<M>,
        _scattered: &mut Ray,
    ) -> (r: Scalar)
        default_ensures
            r.bits == 0,
    {
        Scalar::zero()
    }

    fn emitted(&self, rec: &HitRecord<M>) -> (c: Color)
        ensures
            c == self.glow(*rec),
    ;
}

/// A surface that scatters in all directions, coloured by a texture.
pub struct Lambertian<T> {
    pub albedo: Arc<T>,
}

impl<T: Texture> Lambertian<T> {
    pub fn new(albedo: Arc<T>) -> (r: Arc<Lambertian<T>>)
        ensures
            r.albedo == albedo,
    {
        Arc::new(Lambertian { albedo })
    }

    /// Scatters along `candidate`, the sum of the surface normal and a
    /// random unit vector, or along the normal itself where the two all but
    /// cancel. The attenuation is the texture's colour at the place of the
    /// hit. Always scatters.
    pub fn scatter<M>(
        &self,
        rec: &HitRecord<M>,
        candidate: Vec3,
        alb: &mut Color,
        scattered: &mut Ray,
    ) -> (b: bool)
        ensures
            b,
            *final(alb) == self.albedo.color_at(rec.u, rec.v, rec.p),
            final(scattered).orig == rec.p,
            final(scattered).dir == (if candidate.tiny() {
                rec.normal
            } else {
                candidate
            }),
    {
        let mut scatter_direction = candidate;
        if scatter_direction.near_zero() {
            scatter_direction = rec.normal;
        }
        *scattered = Ray::new(rec.p, scatter_direction);
        *alb = self.albedo.value(rec.u, rec.v, &rec.p);
        true
    }
}

/// A mirror, more or less blurred.
#[derive(Debug)]
pub struct Metal {
    pub albedo: Color,
    pub fuzz: Scalar,
}

impl Metal {
    pub fn new(albedo: Color, fuzz: Scalar) -> (r: Arc<Metal>)
        ensures
            r.albedo == albedo,
            r.fuzz == fuzz,
    {
        Arc::new(Metal { albedo, fuzz })
    }

    /// Scatters along `bounced`, the mirrored direction with its blur, where
    /// that leaves the surface: `facing`, its dot product with the surface
    /// normal, is above zero. Else the ray is absorbed.
    pub fn scatter<M>(
        &self,
        rec: &HitRecord<M>,
        bounced: Vec3,
        facing: Scalar,
        attenuation: &mut Color,
        scattered: &mut Ray,
    ) -> (b: bool)
        ensures
            b == facing.greater(Scalar { bits: 0 }),
            *final(attenuation) == self.albedo,
            *final(scattered) == (Ray { orig: rec.p, dir: bounced }),
    {
        *scattered = Ray::new(rec.p, bounced);
        *attenuation = self.albedo;
        facing > Scalar::zero()
    }
}

/// Glass and the like.
#[derive(Debug)]
pub struct Dielectric {
    pub index_of_refraction: Scalar,
}

/// What the caller has worked out for a ray that meets a dielectric.
pub struct Bend {
    /// The refraction ratio times the sine of the angle of incidence.
    pub ratio_sine: Scalar,
    /// The reflectance at this angle.
    pub reflectance: Scalar,
    /// A number drawn at random from zero up to one.
    pub sample: Scalar,
    /// The direction of the mirrored ray.
    pub reflected: Vec3,
    /// The direction of the refracted ray.
    pub refracted: Vec3,
}

impl Bend {
    /// No refracted ray exists: the ray is reflected totally.
    pub open spec fn cannot_refract(self) -> bool {
        self.ratio_sine.greater(Scalar { bits: ONE_BITS })
    }

    /// The ray is mirrored: it cannot refract, or the reflectance is above
    /// the number drawn.
    pub open spec fn reflects(self) -> bool {
        self.cannot_refract() || self.reflectance.greater(self.sample)
    }
}

impl Dielectric {
    pub fn new(index_of_refraction: Scalar) -> (r: Arc<Dielectric>)
        ensures
            r.index_of_refraction == index_of_refraction,
    {
        Arc::new(Dielectric { index_of_refraction })
    }

    /// The ratio of the refractive indices that the ray passes between: the
    /// inverse of this material's index on the way in, the index itself on
    /// the way out.
    pub fn refraction_ratio(&self, front_face: bool, inverse: Scalar) -> (r: Scalar)
        ensures
            r == (if front_face {
                inverse
            } else {
                self.index_of_refraction
            }),
    {
        if front_face {
            inverse
        } else {
            self.index_of_refraction
        }
    }

    /// Mirrors or refracts the ray. Nothing is absorbed, and the ray always
    /// goes on.
    pub fn scatter<M>(
        &self,
        rec: &HitRecord<M>,
        bend: &Bend,
        attenuation: &mut Color,
        scattered: &mut Ray,
    ) -> (b: bool)
        ensures
            b,
            final(attenuation).x.bits == ONE_BITS,
            final(attenuation).y.bits == ONE_BITS,
            final(attenuation).z.bits == ONE_BITS,
            final(scattered).orig == rec.p,
            final(scattered).dir == (if bend.reflects() {
                bend.reflected
            } else {
                bend.refracted
            }),
    {
        *attenuation = Color::new(Scalar::one(), Scalar::one(), Scalar::one());
        let cannot_refract = bend.ratio_sine > Scalar::one();
        let direction;
        if cannot_refract || bend.reflectance > bend.sample {
            direction = bend.reflected;
        } else {
            direction = bend.refracted;
        }
        *scattered = Ray::new(rec.p, direction);
        true
    }
}

/// A ray that meets a dielectric head-on, so that the sine of its angle is
/// zero and with it the product with the refraction ratio, is never
/// reflected totally: it is mirrored only where the reflectance is above the
/// number drawn.
pub proof fn lemma_head_on_refracts(bend: Bend)
    requires
        !bend.ratio_sine.nan(),
        bend.ratio_sine.rank() == 0,
    ensures
        !bend.cannot_refract(),
        bend.reflects() == bend.reflectance.greater(bend.sample),
{
}

/// A light.
pub struct DiffuseLight {
    pub color: Color,
    pub side: Side,
}

impl DiffuseLight {
    pub fn new(color: Color) -> (r: DiffuseLight)
        ensures
            r.color == color,
            r.side is Double,
    {
        DiffuseLight { color, side: Side::Double }
    }

    pub fn set_side(self, side: Side) -> (r: DiffuseLight)
        ensures
            r.color == self.color,
            r.side == side,
    {
        let mut this = self;
        this.side = side;
        this
    }

    pub fn arc(self) -> (r: Arc<DiffuseLight>)
        ensures
            *r == self,
    {
        Arc::new(self)
    }
}

impl<M> Material<M> for DiffuseLight {
    /// The light's colour on the faces it shines from, black on the others.
    open spec fn glow(&self, rec: HitRecord<M>) -> Color {
        let should_emit = match self.side {
            Side::Front => rec.front_face,
            Side::Back => !rec.front_face,
            Side::Double => true,
        };
        if should_emit {
            self.color
        } else {
            Vec3::origin()
        }
    }

    /// A light sends no ray on.
    open spec fn may_scatter(
        &self,
        ray_in: Ray,
        rec: HitRecord<M>,
        attenuation: Color,
        scattered: Ray,
    ) -> bool {
        false
    }

    /// A light absorbs every ray.
    open spec fn may_absorb(&self, ray_in: Ray, rec: HitRecord<M>) -> bool {
        true
    }

    /// A light absorbs every ray.
    fn scatter(
        &self,
        _ray_in: &Ray,
        _rec: &HitRecord<M>,
        _attenuation: &mut Color,
        _scattered: &mut Ray,
        _pdf: &mut Scalar,
    ) -> (b: bool)
        ensures
            !b,
            *final(_attenuation) == *old(_attenuation),
            *final(_scattered) == *old(_scattered),
            *final(_pdf) == *old(_pdf),
    {
        false
    }

    fn emitted(&self, rec: &HitRecord<M>) -> (c: Color) {
        let should_emit = match self.side {
            Side::Front => rec.front_face,
            Side::Back => !rec.front_face,
            Side::Double => true,
        };
        if should_emit {
            self.color
        } else {
            Color::new(Scalar::zero(), Scalar::zero(), Scalar::zero())
        }
    }
}

/// What a debug material shows.
pub enum DebugTarget {
    Normal,
    Face,
}

/// A surface that shows its normals or its faces in place of a colour.
pub struct DebugMaterial {
    target: DebugTarget,
}

impl DebugMaterial {
    /// What the material shows.
    pub closed spec fn target(self) -> DebugTarget {
        self.target
    }

    pub fn new(target: DebugTarget) -> (r: DebugMaterial)
        ensures
            r.target() == target,
    {
        DebugMaterial { target }
    }

    pub fn arc(self) -> (r: Arc<DebugMaterial>)
        ensures
            *r == self,
    {
        Arc::new(self)
    }
}

impl<M> Material<M> for DebugMaterial {
    /// The normal as a colour, or white on the front face and black on the
    /// back face.
    open spec fn glow(&self, rec: HitRecord<M>) -> Color {
        match self.target() {
            DebugTarget::Normal => rec.normal,
            DebugTarget::Face => if rec.front_face {
                Vec3 {
                    x: Scalar { bits: ONE_BITS },
                    y: Scalar { bits: ONE_BITS },
                    z: Scalar { bits: ONE_BITS },
                }
            } else {
                Vec3::origin()
            },
        }
    }

    /// A debug material sends no ray on.
    open spec fn may_scatter(
        &self,
        ray_in: Ray,
        rec: HitRecord<M>,
        attenuation: Color,
        scattered: Ray,
    ) -> bool {
        false
    }

    /// A debug material absorbs every ray.
    open spec fn may_absorb(&self, ray_in: Ray, rec: HitRecord<M>) -> bool {
        true
    }

    /// A debug material absorbs every ray.
    fn scatter(
        &self,
        _ray_in: &Ray,
        _rec: &HitRecord<M>,
        _attenuation: &mut Color,
        _scattered: &mut Ray,
        _pdf: &mut Scalar,
    ) -> (b: bool)
        ensures
            !b,
            *final(_attenuation) == *old(_attenuation),
            *final(_scattered) == *old(_scattered),
            *final(_pdf) == *old(_pdf),
    {
        false
    }

    fn emitted(&self, rec: &HitRecord<M>) -> (c: Color) {
        match self.target {
            DebugTarget::Normal => rec.normal,
            DebugTarget::Face => {
                if rec.front_face {
                    Vec3::new(Scalar::one(), Scalar::one(), Scalar::one())
                } else {
                    Vec3::zero()
                }
            },
        }
    }
}

} // verus!
