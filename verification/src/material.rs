//! Surfaces: what becomes of a ray where it meets one.
//!
//! `Material` is what the tracer asks of a surface. The three surfaces here
//! hold their parameters and make their decisions: whether a ray goes on, in
//! which of the directions open to it, and with what tint. The directions
//! themselves are sums, products and random draws of doubles; a caller who
//! has those implements `Material` around each surface and hands them in.

use vstd::prelude::*;
use crate::hittable::HitRecord;
use crate::ray::Ray;
use crate::scalar::Scalar;
use crate::vec3::{Color, Vec3};

verus! {

/// A scattered ray and the tint it picked up.
#[derive(Clone, Copy, Debug)]
pub struct MaterialBounce {
    pub ray: Ray,
    pub attenuation: Color,
}

impl MaterialBounce {
    pub fn new(ray: Ray, attenuation: Color) -> (r: MaterialBounce)
        ensures
            r.ray == ray,
            r.attenuation == attenuation,
    {
        MaterialBounce { ray, attenuation }
    }

    pub fn ray(self) -> (r: Ray)
        ensures
            r == self.ray,
    {
        self.ray
    }

    pub fn attenuation(self) -> (r: Color)
        ensures
            r == self.attenuation,
    {
        self.attenuation
    }
}

/// A surface, as the tracer sees it.
pub trait Material: Sized {
    /// What the surface makes of `ray`, which hit it as `rec` records: the
    /// ray it sends on and the tint, or nothing where it swallows the ray.
    fn scatter(&self, ray: Ray, rec: HitRecord<Self>) -> (r: Option<MaterialBounce>);
}

/// A surface that passes every ray on unchanged and lets no light through.
#[derive(Clone, Copy, Debug)]
pub struct EmptyMaterial;

/// A matt surface.
#[derive(Clone, Copy, Debug)]
pub struct LambertianMaterial {
    pub albedo: Color,
}

/// A mirror, blurred by `fuzz`.
#[derive(Clone, Copy, Debug)]
pub struct MetalMaterial {
    pub albedo: Color,
    pub fuzz: Scalar,
}

/// A clear surface that bends light, such as glass.
#[derive(Clone, Copy, Debug)]
pub struct DielectricMaterial {
    pub refraction_index: Scalar,
}

/// The colour with every channel at 1.
pub open spec fn white() -> Color {
    Vec3(Scalar::one(), Scalar::one(), Scalar::one())
}

/// The colour with every channel at 0.
pub open spec fn black() -> Color {
    Vec3(Scalar::zero(), Scalar::zero(), Scalar::zero())
}

impl Material for EmptyMaterial {
    /// The ray goes on as it came, and all its light is lost.
    fn scatter(&self, ray: Ray, rec: HitRecord<EmptyMaterial>) -> (r: Option<MaterialBounce>)
        ensures
            r == Some(MaterialBounce { ray, attenuation: black() }),
    {
        Some(MaterialBounce { ray, attenuation: Color::zero() })
    }
}

impl LambertianMaterial {
    pub fn new(albedo: Color) -> (r: LambertianMaterial)
        ensures
            r.albedo == albedo,
    {
        LambertianMaterial { albedo }
    }

    /// The direction a matt surface scatters in: `candidate`, unless that is
    /// near zero, then the surface normal.
    pub open spec fn direction(normal: Vec3, candidate: Vec3) -> Vec3 {
        if candidate.tiny() {
            normal
        } else {
            candidate
        }
    }

    /// Scatters from the point hit. `candidate` is the normal plus a random
    /// vector of length one. The ray always goes on, tinted by the albedo.
    pub fn bounce<M>(&self, rec: &HitRecord<M>, candidate: Vec3) -> (r: Option<MaterialBounce>)
        ensures
            r == Some(
                MaterialBounce {
                    ray: Ray { origin: rec.point, direction: Self::direction(rec.normal, candidate) },
                    attenuation: self.albedo,
                },
            ),
    {
        let mut scatter_dir: Vec3 = candidate;
        if scatter_dir.near_zero() {
            scatter_dir = rec.normal();
        }
        Some(MaterialBounce { ray: Ray::new(rec.point(), scatter_dir), attenuation: self.albedo })
    }
}

impl MetalMaterial {
    /// The fuzz a mirror is made with: `fuzz` held to the range from 0 to 1.
    /// What is not below 1, a NaN too, counts as 1.
    pub open spec fn held(fuzz: Scalar) -> Scalar {
        if fuzz.less(Scalar::one()) {
            if fuzz.less(Scalar::zero()) {
                Scalar::zero()
            } else {
                fuzz
            }
        } else {
            Scalar::one()
        }
    }

    pub fn new(albedo: Color, fuzz: Scalar) -> (r: MetalMaterial)
        ensures
            r.albedo == albedo,
            r.fuzz == Self::held(fuzz),
    {
        let fuzz: Scalar = if fuzz.lt(Scalar::one()) {
            if fuzz.lt(Scalar::zero()) {
                Scalar::zero()
            } else {
                fuzz
            }
        } else {
            Scalar::one()
        };
        MetalMaterial { albedo, fuzz }
    }

    /// Scatters from the point hit. `direction` is the mirrored direction
    /// plus the blur, and `facing` its dot product with the surface normal.
    /// The ray goes on, tinted by the albedo, where `facing > 0`: where the
    /// blur has not turned it into the surface.
    pub fn bounce<M>(&self, rec: &HitRecord<M>, direction: Vec3, facing: Scalar) -> (r: Option<
        MaterialBounce,
    >)
        ensures
            Scalar::zero().less(facing) ==> r == Some(
                MaterialBounce {
                    ray: Ray { origin: rec.point, direction },
                    attenuation: self.albedo,
                },
            ),
            !Scalar::zero().less(facing) ==> r.is_none(),
    {
        if facing.gt(Scalar::zero()) {
            Some(MaterialBounce { ray: Ray::new(rec.point(), direction), attenuation: self.albedo })
        } else {
            None
        }
    }
}

impl DielectricMaterial {
    pub fn new(refraction_index: Scalar) -> (r: DielectricMaterial)
        ensures
            r.refraction_index == refraction_index,
    {
        DielectricMaterial { refraction_index }
    }

    /// The ratio of the refraction indices on the two sides of the surface,
    /// the side the ray comes from first. `inverse` is one over the surface's
    /// own index: the ratio for a ray that enters from outside. A ray that
    /// leaves from inside has the index itself.
    pub fn refraction_ratio<M>(&self, rec: &HitRecord<M>, inverse: Scalar) -> (r: Scalar)
        ensures
            r == if rec.front_face {
                inverse
            } else {
                self.refraction_index
            },
    {
        if rec.front_face() {
            inverse
        } else {
            self.refraction_index
        }
    }

    /// Whether no refracted ray exists. `sine_ratio` is the refraction ratio
    /// times the sine of the angle of incidence; beyond 1 the light is
    /// reflected whole.
    pub fn cannot_refract(sine_ratio: Scalar) -> (r: bool)
        ensures
            r == Scalar::one().less(sine_ratio),
    {
        sine_ratio.gt(Scalar::one())
    }

    /// Whether a ray that could refract is reflected all the same: where the
    /// reflectance at its angle is above `draw`, a random number from 0 to 1.
    pub fn reflects(reflectance: Scalar, draw: Scalar) -> (r: bool)
        ensures
            r == draw.less(reflectance),
    {
        reflectance.gt(draw)
    }

    /// Scatters from the point hit, in `direction`: the reflected or the
    /// refracted one, by `cannot_refract` and `reflects`. The ray always goes
    /// on, untinted.
    pub fn bounce<M>(&self, rec: &HitRecord<M>, direction: Vec3) -> (r: Option<MaterialBounce>)
        ensures
            r == Some(
                MaterialBounce {
                    ray: Ray { origin: rec.point, direction },
                    attenuation: white(),
                },
            ),
    {
        let attenuation: Color = Color::new(Scalar::one(), Scalar::one(), Scalar::one());
        Some(MaterialBounce { ray: Ray::new(rec.point(), direction), attenuation })
    }
}

} // verus!
