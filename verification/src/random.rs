//! Random sampling, behind a small trusted boundary around `rand`.
//!
//! Everything the tracer consumes is a plain fixed-point value; the only
//! facts assumed of the generator are the ranges of its draws.

use crate::fixed::{tdiv, FX_ONE};
use crate::vec3::{in_range, norm2_n, normalize_s, unit_comps, UnitVec3, Vec3};
use vstd::prelude::*;

verus! {

#[verifier::external_type_specification]
#[verifier::external_body]
pub struct ExSmallRng(rand::rngs::SmallRng);

/// Relies on rand's `Rng::gen_range`: a uniform draw from the half-open
/// range `[lo, hi)`, which must be nonempty.
#[verifier::external_body]
fn rand_range_i64(rng: &mut rand::rngs::SmallRng, lo: i64, hi: i64) -> (r: i64)
    requires
        lo < hi,
    ensures
        lo <= r < hi,
{
    rand::Rng::gen_range(rng, lo..hi)
}

/// A uniform fixed-point draw from `[min, max)`.
pub fn random_fx_range(rng: &mut rand::rngs::SmallRng, min: i64, max: i64) -> (r: i64)
    requires
        min < max,
    ensures
        min <= r < max,
{
    rand_range_i64(rng, min, max)
}

/// A vector with each component drawn uniformly from `[-1, 1)`.
pub fn random_vec3(rng: &mut rand::rngs::SmallRng) -> (r: Vec3)
    ensures
        in_range(r, FX_ONE as int),
{
    Vec3 {
        x: rand_range_i64(rng, -FX_ONE, FX_ONE),
        y: rand_range_i64(rng, -FX_ONE, FX_ONE),
        z: rand_range_i64(rng, -FX_ONE, FX_ONE),
    }
}

/// A vector with each component drawn uniformly from `[min, max)`.
pub fn random_vec3_range(rng: &mut rand::rngs::SmallRng, min: i64, max: i64) -> (r: Vec3)
    requires
        min < max,
    ensures
        min <= r.x < max,
        min <= r.y < max,
        min <= r.z < max,
{
    Vec3 {
        x: rand_range_i64(rng, min, max),
        y: rand_range_i64(rng, min, max),
        z: rand_range_i64(rng, min, max),
    }
}

/// A nonzero point of the closed unit ball, by bounded rejection
/// sampling.  Unlike a sampler that admits the zero draw, this one
/// rejects it, so the point can always be normalised; after many
/// rejections it falls back to a fixed interior point.
pub fn random_in_unit_sphere(rng: &mut rand::rngs::SmallRng) -> (r: Vec3)
    ensures
        in_range(r, FX_ONE as int),
        tdiv(norm2_n(r), FX_ONE as int) <= FX_ONE,
        !(r.x == 0 && r.y == 0 && r.z == 0),
{
    let mut i: u64 = 0;
    while i < 64
        invariant
            i <= 64,
        decreases 64 - i,
    {
        let p = random_vec3(rng);
        proof {
            crate::vec3::lemma_norm2_bound(p, FX_ONE as int);
            crate::fixed::lemma_tdiv_in_range(
                norm2_n(p),
                FX_ONE as int,
                3 * (FX_ONE as int * FX_ONE as int),
            );
        }
        if !p.near_zero() && p.length_squared() <= FX_ONE {
            return p;
        }
        i = i + 1;
    }
    let f = Vec3 { x: 524288, y: 0, z: 0 };
    proof {
        crate::fixed::lemma_tdiv_in_range(
            norm2_n(f),
            FX_ONE as int,
            3 * (FX_ONE as int * FX_ONE as int),
        );
    }
    f
}

/// A random direction: a point of the unit ball, normalised.
pub fn random_unit_vector(rng: &mut rand::rngs::SmallRng) -> (r: UnitVec3)
    ensures
        r.wf(),
        exists|v: Vec3|
            in_range(v, FX_ONE as int) && !(v.x == 0 && v.y == 0 && v.z == 0) && unit_comps(r)
                == normalize_s(v.x as int, v.y as int, v.z as int),
{
    let p = random_in_unit_sphere(rng);
    let u = p.unit_vector();
    proof {
        assert(in_range(p, FX_ONE as int) && !(p.x == 0 && p.y == 0 && p.z == 0) && unit_comps(u)
            == normalize_s(p.x as int, p.y as int, p.z as int));
    }
    u
}

/// A point of the closed unit disk in the plane `z == 0`, by bounded
/// rejection sampling; after many rejections it falls back to the centre.
pub fn random_in_unit_disk(rng: &mut rand::rngs::SmallRng) -> (r: Vec3)
    ensures
        in_range(r, FX_ONE as int),
        tdiv(norm2_n(r), FX_ONE as int) <= FX_ONE,
        r.z == 0,
{
    let mut i: u64 = 0;
    while i < 64
        invariant
            i <= 64,
        decreases 64 - i,
    {
        let p = Vec3 { x: rand_range_i64(rng, -FX_ONE, FX_ONE), y: rand_range_i64(rng, -FX_ONE, FX_ONE), z: 0 };
        proof {
            crate::vec3::lemma_norm2_bound(p, FX_ONE as int);
            crate::fixed::lemma_tdiv_in_range(
                norm2_n(p),
                FX_ONE as int,
                3 * (FX_ONE as int * FX_ONE as int),
            );
        }
        if p.length_squared() <= FX_ONE {
            return p;
        }
        i = i + 1;
    }
    Vec3 { x: 0, y: 0, z: 0 }
}

} // verus!
