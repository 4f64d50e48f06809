//! The material model: how each kind of surface scatters light.

use crate::fixed::{fdiv, fmul, fx_div, fx_mul, tdiv, FX_ONE};
use crate::hittable::Hit;
use crate::random::{random_in_unit_sphere, random_unit_vector};
use crate::vec3::{
    dot_n, guarded_unit_s, in_range, reflect_s, refract_s, sin_theta_s, unit_comps, Color, Ray,
    UnitVec3, Vec3,
};
use vstd::prelude::*;

verus! {

/// Smallest admitted refractive index (1/4096 in real terms).
pub const RI_MIN: i64 = 256;

/// Largest admitted refractive index (1024 in real terms).
pub const RI_MAX: i64 = 1073741824;

/// Largest admitted emitted radiance per channel (about a million in real
/// terms).
pub const RADIANCE_MAX: i64 = 1099511627776;

/// Each channel is a reflectance fraction in `[0, 1]`.
pub open spec fn color01(c: Color) -> bool {
    &&& 0 <= c.x <= FX_ONE
    &&& 0 <= c.y <= FX_ONE
    &&& 0 <= c.z <= FX_ONE
}

/// Each channel is a radiance value in `[0, b]`.
pub open spec fn color_bounded(c: Color, b: int) -> bool {
    &&& 0 <= c.x <= b
    &&& 0 <= c.y <= b
    &&& 0 <= c.z <= b
}

/// What a material does with an incoming ray.
#[derive(Clone, Copy, Debug, PartialEq, Eq, Structural)]
pub enum ScatterResult {
    Reflect(Color, Ray),
    Emit(Color),
    Absorb,
}

/// A matte surface.
#[derive(Clone, Copy, Debug)]
pub struct Diffuse {
    pub albedo: Color,
}

/// The diffuse bounce: the surface normal plus a random unit vector,
/// normalised, with the normal itself replacing a degenerate zero sum.
pub open spec fn diffuse_dir_s(hit: Hit, bounce: UnitVec3) -> (int, int, int) {
    guarded_unit_s(
        (
            hit.normal.0.x + bounce.0.x,
            hit.normal.0.y + bounce.0.y,
            hit.normal.0.z + bounce.0.z,
        ),
        hit.normal,
    )
}

impl Diffuse {
    pub open spec fn wf(self) -> bool {
        color01(self.albedo)
    }

    /// The deterministic part of diffuse scattering, for a given bounce
    /// direction.
    pub fn scatter_with(&self, _ray_in: &Ray, hit: &Hit, bounce: UnitVec3) -> (r: ScatterResult)
        requires
            self.wf(),
            hit.wf(),
            bounce.wf(),
        ensures
            r matches ScatterResult::Reflect(att, out) && att == self.albedo && out.origin
                == hit.point && out.wf() && unit_comps(out.direction) == diffuse_dir_s(
                *hit,
                bounce,
            ),
    {
        let dir_v = hit.normal.as_vec3().plus(bounce.as_vec3());
        let out_dir = if dir_v.near_zero() {
            hit.normal
        } else {
            dir_v.unit_vector()
        };
        ScatterResult::Reflect(self.albedo, Ray::new(hit.point, out_dir))
    }

    /// Diffuse scattering: always reflects, tinted by the albedo.
    pub fn scatter(&self, rng: &mut rand::rngs::SmallRng, ray_in: &Ray, hit: &Hit) -> (r:
        ScatterResult)
        requires
            self.wf(),
            hit.wf(),
        ensures
            r matches ScatterResult::Reflect(att, out) && att == self.albedo && out.origin
                == hit.point && out.wf() && (exists|b: UnitVec3|
                b.wf() && unit_comps(out.direction) == diffuse_dir_s(*hit, b)),
    {
        let b = random_unit_vector(rng);
        let r = self.scatter_with(ray_in, hit, b);
        proof {
            assert(r matches ScatterResult::Reflect(att, out) && unit_comps(out.direction)
                == diffuse_dir_s(*hit, b));
        }
        r
    }
}

/// A reflective surface, with an optional fuzz perturbation.
#[derive(Clone, Copy, Debug)]
pub struct Metal {
    pub albedo: Color,
    pub fuzz: i64,
}

/// The metal bounce: the mirrored incoming direction, perturbed by the
/// fuzz times a point of the unit ball, and normalised; a degenerate zero
/// sum falls back to the surface normal.
pub open spec fn metal_dir_s(ray: Ray, hit: Hit, fuzz: int, sample: Vec3) -> (int, int, int) {
    let refl = reflect_s(ray.direction.0, hit.normal.0);
    guarded_unit_s(
        (
            refl.0 + fmul(sample.x as int, fuzz),
            refl.1 + fmul(sample.y as int, fuzz),
            refl.2 + fmul(sample.z as int, fuzz),
        ),
        hit.normal,
    )
}

impl Metal {
    pub open spec fn wf(self) -> bool {
        color01(self.albedo) && 0 <= self.fuzz <= FX_ONE
    }

    /// The deterministic part of metal scattering, for a given fuzz
    /// sample.  The fuzzed direction is not checked against the surface:
    /// a strong perturbation may send the ray back under it.
    pub fn scatter_with(&self, ray_in: &Ray, hit: &Hit, sample: Vec3) -> (r: ScatterResult)
        requires
            self.wf(),
            ray_in.wf(),
            hit.wf(),
            in_range(sample, FX_ONE as int),
        ensures
            r matches ScatterResult::Reflect(att, out) && att == self.albedo && out.origin
                == hit.point && out.wf() && unit_comps(out.direction) == metal_dir_s(
                *ray_in,
                *hit,
                self.fuzz as int,
                sample,
            ),
    {
        let reflected = ray_in.direction.reflect(hit.normal);
        proof {
            let s = FX_ONE as int;
            crate::fixed::lemma_fmul_bound(sample.x as int, self.fuzz as int, s, s);
            crate::fixed::lemma_fmul_bound(sample.y as int, self.fuzz as int, s, s);
            crate::fixed::lemma_fmul_bound(sample.z as int, self.fuzz as int, s, s);
        }
        let fuzzed = reflected.plus(sample.scale(self.fuzz));
        let out_dir = if fuzzed.near_zero() {
            hit.normal
        } else {
            fuzzed.unit_vector()
        };
        ScatterResult::Reflect(self.albedo, Ray::new(hit.point, out_dir))
    }

    /// Metal scattering: always reflects, tinted by the albedo.
    pub fn scatter(&self, rng: &mut rand::rngs::SmallRng, ray_in: &Ray, hit: &Hit) -> (r:
        ScatterResult)
        requires
            self.wf(),
            ray_in.wf(),
            hit.wf(),
        ensures
            r matches ScatterResult::Reflect(att, out) && att == self.albedo && out.origin
                == hit.point && out.wf() && (exists|s: Vec3|
                in_range(s, FX_ONE as int) && unit_comps(out.direction) == metal_dir_s(
                    *ray_in,
                    *hit,
                    self.fuzz as int,
                    s,
                )),
    {
        let sample = random_in_unit_sphere(rng);
        let r = self.scatter_with(ray_in, hit, sample);
        proof {
            assert(r matches ScatterResult::Reflect(att, out) && unit_comps(out.direction)
                == metal_dir_s(*ray_in, *hit, self.fuzz as int, sample));
        }
        r
    }
}

/// A transparent refractive surface.
#[derive(Clone, Copy, Debug)]
pub struct Dielectric {
    pub refractive_index: i64,
}

/// The Schlick approximation of the Fresnel reflectance.
pub open spec fn schlick_s(ri: int, cos: int) -> int {
    let r0 = fdiv(FX_ONE - ri, FX_ONE + ri);
    let r0sq = fmul(r0, r0);
    let omc = FX_ONE - cos;
    let p2 = fmul(omc, omc);
    let p4 = fmul(p2, p2);
    let p5 = fmul(p4, omc);
    r0sq + fmul(FX_ONE - r0sq, p5)
}

/// The ratio of refractive indices seen by the ray: the reciprocal of the
/// index when entering from outside, the index itself when leaving.
pub open spec fn dielectric_ratio_s(ri: int, front: bool) -> int {
    if front {
        fdiv(FX_ONE as int, ri)
    } else {
        ri
    }
}

/// The direction taken when a dielectric reflects.
pub open spec fn dielectric_reflect_dir_s(ray: Ray, hit: Hit) -> (int, int, int) {
    guarded_unit_s(reflect_s(ray.direction.0, hit.normal.0), hit.normal)
}

/// The direction taken when a dielectric refracts.
pub open spec fn dielectric_refract_dir_s(ray: Ray, hit: Hit, ratio: int) -> (int, int, int) {
    guarded_unit_s(refract_s(ray.direction.0, hit.normal.0, ratio), hit.normal)
}

/// Whether refraction is possible: Snell's law has a solution exactly
/// when the scaled sine stays at most one.
pub open spec fn dielectric_can_refract_s(ri: int, ray: Ray, hit: Hit) -> bool {
    fmul(
        dielectric_ratio_s(ri, hit.face is Front),
        sin_theta_s(ray.direction.0, hit.normal.0),
    ) <= FX_ONE
}

/// The full dielectric scatter direction for a given uniform draw.
pub open spec fn dielectric_dir_s(ri: int, ray: Ray, hit: Hit, draw: int) -> (int, int, int) {
    let ratio = dielectric_ratio_s(ri, hit.face is Front);
    let cos = -tdiv(dot_n(ray.direction.0, hit.normal.0), FX_ONE as int);
    if dielectric_can_refract_s(ri, ray, hit) && schlick_s(ri, cos) <= draw {
        dielectric_refract_dir_s(ray, hit, ratio)
    } else {
        dielectric_reflect_dir_s(ray, hit)
    }
}

impl Dielectric {
    pub open spec fn wf(self) -> bool {
        RI_MIN <= self.refractive_index <= RI_MAX
    }

    /// The Schlick reflectance for a given cosine of incidence.
    pub fn reflectance(&self, cos_theta: i64) -> (r: i64)
        requires
            self.wf(),
            -3 * FX_ONE <= cos_theta <= 3 * FX_ONE,
        ensures
            r == schlick_s(self.refractive_index as int, cos_theta as int),
    {
        let ri = self.refractive_index;
        proof {
            let si = FX_ONE as int;
            lemma_abs_fdiv_le_one(si - ri, si + ri);
            let r0 = fdiv(si - ri, si + ri);
            assert(0 <= r0 * r0 <= si * si) by (nonlinear_arith)
                requires
                    -si <= r0 <= si,
            ;
            crate::fixed::lemma_tdiv_in_range(r0 * r0, si, si * si);
            let r0sq = fmul(r0, r0);
            let omc = si - cos_theta;
            assert(0 <= omc * omc <= 16 * (si * si)) by (nonlinear_arith)
                requires
                    -4 * si <= omc <= 4 * si,
            ;
            crate::fixed::lemma_tdiv_in_range(omc * omc, si, 16 * (si * si));
            let p2 = fmul(omc, omc);
            assert(0 <= p2 * p2 <= 256 * (si * si)) by (nonlinear_arith)
                requires
                    0 <= p2 <= 16 * si,
            ;
            crate::fixed::lemma_tdiv_in_range(p2 * p2, si, 256 * (si * si));
            let p4 = fmul(p2, p2);
            crate::fixed::lemma_fmul_bound(p4, omc, 256 * si, 4 * si);
            let p5 = fmul(p4, omc);
            crate::fixed::lemma_fmul_bound(si - r0sq, p5, si, 1024 * si);
        }
        let r0 = fx_div(FX_ONE - ri, FX_ONE + ri);
        let r0sq = fx_mul(r0, r0);
        let omc = FX_ONE - cos_theta;
        let p2 = fx_mul(omc, omc);
        let p4 = fx_mul(p2, p2);
        let p5 = fx_mul(p4, omc);
        r0sq + fx_mul(FX_ONE - r0sq, p5)
    }

    /// The deterministic part of dielectric scattering, for a given
    /// uniform draw in `[0, 1)`.
    pub fn scatter_with(&self, ray_in: &Ray, hit: &Hit, draw: i64) -> (r: ScatterResult)
        requires
            self.wf(),
            ray_in.wf(),
            hit.wf(),
            0 <= draw < FX_ONE,
        ensures
            r matches ScatterResult::Reflect(att, out) && att == (Color {
                x: FX_ONE,
                y: FX_ONE,
                z: FX_ONE,
            }) && out.origin == hit.point && out.wf() && unit_comps(out.direction)
                == dielectric_dir_s(self.refractive_index as int, *ray_in, *hit, draw as int),
            !dielectric_can_refract_s(self.refractive_index as int, *ray_in, *hit)
                ==> (r matches ScatterResult::Reflect(att, out) && unit_comps(out.direction)
                == dielectric_reflect_dir_s(*ray_in, *hit)),
    {
        let attenuation = Color { x: FX_ONE, y: FX_ONE, z: FX_ONE };
        let ratio = match hit.face {
            crate::hittable::Face::Front => {
                proof {
                    lemma_recip_range(self.refractive_index as int);
                }
                fx_div(FX_ONE, self.refractive_index)
            },
            crate::hittable::Face::Back => self.refractive_index,
        };
        let unit_direction = ray_in.direction;
        let negn = hit.normal.neg();
        let cos_theta = unit_direction.cos_theta(negn);
        let sin_theta = unit_direction.sin_theta(hit.normal);
        proof {
            crate::fixed::lemma_fmul_bound(ratio as int, sin_theta as int, 4294967296, FX_ONE as int);
            assert(dot_n(unit_direction.0, negn.0) == -dot_n(unit_direction.0, hit.normal.0))
                by (nonlinear_arith)
                requires
                    negn.0.x == -hit.normal.0.x,
                    negn.0.y == -hit.normal.0.y,
                    negn.0.z == -hit.normal.0.z,
            ;
            crate::fixed::lemma_tdiv_neg(dot_n(unit_direction.0, hit.normal.0), FX_ONE as int);
        }
        let can_refract = fx_mul(ratio, sin_theta) <= FX_ONE;
        let reflectance = self.reflectance(cos_theta);
        let out_vec = if can_refract && reflectance <= draw {
            unit_direction.refract(hit.normal, ratio)
        } else {
            unit_direction.reflect(hit.normal)
        };
        let out_dir = if out_vec.near_zero() {
            hit.normal
        } else {
            out_vec.unit_vector()
        };
        ScatterResult::Reflect(attenuation, Ray::new(hit.point, out_dir))
    }

    /// Dielectric scattering: always reflects with no absorption; the
    /// choice between mirror reflection and refraction follows the
    /// Fresnel reflectance, and beyond the critical angle the ray always
    /// reflects, whatever the draw.
    pub fn scatter(&self, rng: &mut rand::rngs::SmallRng, ray_in: &Ray, hit: &Hit) -> (r:
        ScatterResult)
        requires
            self.wf(),
            ray_in.wf(),
            hit.wf(),
        ensures
            r matches ScatterResult::Reflect(att, out) && att == (Color {
                x: FX_ONE,
                y: FX_ONE,
                z: FX_ONE,
            }) && out.origin == hit.point && out.wf() && (exists|draw: i64|
                0 <= draw < FX_ONE && unit_comps(out.direction) == dielectric_dir_s(
                    self.refractive_index as int,
                    *ray_in,
                    *hit,
                    draw as int,
                )),
            !dielectric_can_refract_s(self.refractive_index as int, *ray_in, *hit)
                ==> (r matches ScatterResult::Reflect(att, out) && unit_comps(out.direction)
                == dielectric_reflect_dir_s(*ray_in, *hit)),
    {
        let draw = crate::random::random_fx_range(rng, 0, FX_ONE);
        let r = self.scatter_with(ray_in, hit, draw);
        proof {
            assert(r matches ScatterResult::Reflect(att, out) && unit_comps(out.direction)
                == dielectric_dir_s(self.refractive_index as int, *ray_in, *hit, draw as int));
        }
        r
    }
}

/// A light source.
#[derive(Clone, Copy, Debug)]
pub struct Light {
    pub color: Color,
}

impl Light {
    pub open spec fn wf(self) -> bool {
        color_bounded(self.color, RADIANCE_MAX as int)
    }

    /// A light always emits its configured radiance, whatever the
    /// incoming ray or hit geometry.
    pub fn scatter(&self, _rng: &mut rand::rngs::SmallRng, _ray_in: &Ray, _hit: &Hit) -> (r:
        ScatterResult)
        ensures
            r == ScatterResult::Emit(self.color),
    {
        ScatterResult::Emit(self.color)
    }
}

/// The closed set of material kinds; scattering dispatch is total.
#[derive(Clone, Copy, Debug)]
pub enum Material {
    Diffuse(Diffuse),
    Metal(Metal),
    Dielectric(Dielectric),
    Light(Light),
}

impl Material {
    pub open spec fn wf(self) -> bool {
        match self {
            Material::Diffuse(d) => d.wf(),
            Material::Metal(m) => m.wf(),
            Material::Dielectric(d) => d.wf(),
            Material::Light(l) => l.wf(),
        }
    }

    /// Scatter the incoming ray at the given hit.
    pub fn scatter(&self, rng: &mut rand::rngs::SmallRng, ray_in: &Ray, hit: &Hit) -> (r:
        ScatterResult)
        requires
            self.wf(),
            ray_in.wf(),
            hit.wf(),
        ensures
            !(r is Absorb),
            self matches Material::Light(l) ==> r == ScatterResult::Emit(l.color),
            r matches ScatterResult::Reflect(att, out) ==> color01(att) && out.wf() && out.origin
                == hit.point,
            r matches ScatterResult::Emit(c) ==> color_bounded(c, RADIANCE_MAX as int),
            self matches Material::Diffuse(d) ==> (r matches ScatterResult::Reflect(att, out)
                && att == d.albedo),
            self matches Material::Metal(m) ==> (r matches ScatterResult::Reflect(att, out) && att
                == m.albedo),
            self is Dielectric ==> (r matches ScatterResult::Reflect(att, out) && att == (Color {
                x: FX_ONE,
                y: FX_ONE,
                z: FX_ONE,
            })),
            self matches Material::Dielectric(d) && !dielectric_can_refract_s(
                d.refractive_index as int,
                *ray_in,
                *hit,
            ) ==> (r matches ScatterResult::Reflect(att, out) && unit_comps(out.direction)
                == dielectric_reflect_dir_s(*ray_in, *hit)),
    {
        match self {
            Material::Diffuse(d) => d.scatter(rng, ray_in, hit),
            Material::Metal(m) => m.scatter(rng, ray_in, hit),
            Material::Dielectric(d) => d.scatter(rng, ray_in, hit),
            Material::Light(l) => l.scatter(rng, ray_in, hit),
        }
    }
}

/// The magnitude of `fdiv(a, b)` stays at most one when `|a| <= b`.
proof fn lemma_abs_fdiv_le_one(a: int, b: int)
    requires
        b > 0,
        -b <= a <= b,
    ensures
        -FX_ONE <= fdiv(a, b) <= FX_ONE,
{
    assert(-(b * FX_ONE) <= a * FX_ONE <= b * FX_ONE) by (nonlinear_arith)
        requires
            -b <= a <= b,
            b > 0,
    ;
    crate::fixed::lemma_tdiv_in_range(a * FX_ONE, b, b * FX_ONE);
    vstd::arithmetic::div_mod::lemma_div_by_multiple(FX_ONE as int, b);
    assert(b * FX_ONE == FX_ONE * b) by (nonlinear_arith);
}

/// The reciprocal of an admitted refractive index is positive and fits
/// the refraction bound.
proof fn lemma_recip_range(ri: int)
    requires
        RI_MIN <= ri <= RI_MAX,
    ensures
        0 < fdiv(FX_ONE as int, ri) <= 4294967296,
{
    crate::fixed::lemma_tdiv_in_range(FX_ONE as int * FX_ONE, ri, FX_ONE as int * FX_ONE);
    vstd::arithmetic::div_mod::lemma_div_is_ordered_by_denominator(
        FX_ONE as int * FX_ONE,
        RI_MIN as int,
        ri,
    );
    assert((FX_ONE as int * FX_ONE) / RI_MIN as int == 4294967296);
    vstd::arithmetic::div_mod::lemma_div_non_zero(FX_ONE as int * FX_ONE, ri);
}

} // verus!
