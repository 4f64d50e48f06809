//! The path integrator and the per-row driver, with the output helpers.

use crate::camera::Camera;
use crate::fixed::{fx_div, isqrt_u128, lemma_fmul_unit_bound, lemma_tdiv_le_mult, sqrt_i, tdiv,
    FX_ONE};
use crate::material::{color_bounded, Material, ScatterResult, RADIANCE_MAX};
use crate::vec3::{Color, Ray, POINT_MAX};
use crate::world::{sphere_hit_s, World};
use vstd::prelude::*;

verus! {

/// Lower bound of the traced parameter range (a thousandth in real
/// terms), which avoids immediate self-intersection at a ray's origin.
pub const TRACE_T_MIN: i64 = 1048;

/// The red and green channels of the flat ambient background (a tenth in
/// real terms).
pub const BACKGROUND_RG: i64 = 104858;

/// The blue channel of the flat ambient background (fifteen hundredths
/// in real terms).
pub const BACKGROUND_B: i64 = 157286;

/// The ray meets no sphere of the scene anywhere in the traced range.
pub open spec fn world_misses(w: World, ray: Ray) -> bool {
    forall|j: int|
        0 <= j < w.0@.len() ==> sphere_hit_s(
            w.0@[j],
            ray,
            TRACE_T_MIN as int,
            POINT_MAX as int,
        ) is None
}

/// The constant ambient radiance returned for rays that leave the scene.
pub fn background() -> (r: Color)
    ensures
        r == (Color { x: BACKGROUND_RG, y: BACKGROUND_RG, z: BACKGROUND_B }),
{
    Color { x: BACKGROUND_RG, y: BACKGROUND_RG, z: BACKGROUND_B }
}

/// `r` is the attenuation applied to an estimate: each channel of `rec`
/// scaled by the matching channel of `att`.
pub open spec fn tinted(att: Color, rec: Color, r: Color) -> bool {
    &&& r.x == crate::fixed::fmul(att.x as int, rec.x as int)
    &&& r.y == crate::fixed::fmul(att.y as int, rec.y as int)
    &&& r.z == crate::fixed::fmul(att.z as int, rec.z as int)
}

/// What striking a surface of the given material can yield: a light
/// terminates the path with exactly its configured radiance, and every
/// other material tints some bounded recursive estimate by its
/// attenuation (the albedo, or no absorption at all for a dielectric).
pub open spec fn scatter_radiance(mat: Material, r: Color) -> bool {
    match mat {
        Material::Diffuse(d) => exists|rec: Color|
            color_bounded(rec, RADIANCE_MAX as int) && #[trigger] tinted(d.albedo, rec, r),
        Material::Metal(m) => exists|rec: Color|
            color_bounded(rec, RADIANCE_MAX as int) && #[trigger] tinted(m.albedo, rec, r),
        Material::Dielectric(_) => exists|rec: Color|
            color_bounded(rec, RADIANCE_MAX as int) && #[trigger] tinted(
                Color { x: FX_ONE, y: FX_ONE, z: FX_ONE },
                rec,
                r,
            ),
        Material::Light(l) => r == l.color,
    }
}

/// The estimate returned for a ray that strikes the scene: some sphere
/// yields the closest hit over the traced range, and the estimate is
/// what its material's scattering allows.
pub open spec fn hit_color(world: World, ray: Ray, r: Color) -> bool {
    exists|i: int|
        {
            &&& 0 <= i < world.0@.len()
            &&& (#[trigger] sphere_hit_s(
                world.0@[i],
                ray,
                TRACE_T_MIN as int,
                POINT_MAX as int,
            )) matches Some(m)
            &&& forall|j: int|
                0 <= j < world.0@.len() ==> (#[trigger] sphere_hit_s(
                    world.0@[j],
                    ray,
                    TRACE_T_MIN as int,
                    POINT_MAX as int,
                ) matches Some(m2) ==> m.t <= m2.t)
            &&& scatter_radiance(world.0@[i].material, r)
        }
}

/// The recursive radiance estimator.
///
/// An exhausted depth budget truncates the path and yields black; a ray
/// that misses every sphere yields the ambient background exactly; a hit
/// dispatches to the closest-struck sphere's material, whose attenuation
/// tints the recursive estimate (`hit_color`; a light is fully
/// deterministic and returns its radiance).  Every channel of the result
/// stays within the radiance bound.
pub fn ray_color(rng: &mut rand::rngs::SmallRng, ray: &Ray, world: &World, max_depth: i32) -> (r:
    Color)
    requires
        ray.wf(),
        world.wf(),
    ensures
        color_bounded(r, RADIANCE_MAX as int),
        max_depth <= 0 ==> r == (Color { x: 0, y: 0, z: 0 }),
        max_depth > 0 && world_misses(*world, *ray) ==> r == (Color {
            x: BACKGROUND_RG,
            y: BACKGROUND_RG,
            z: BACKGROUND_B,
        }),
        max_depth > 0 && !world_misses(*world, *ray) ==> hit_color(*world, *ray, r),
    decreases max_depth,
{
    if max_depth <= 0 {
        return Color { x: 0, y: 0, z: 0 };
    }
    match world.hit(ray, TRACE_T_MIN, POINT_MAX) {
        Option::Some((hit, idx)) => {
            let material = world.0[idx].material;
            proof {
                assert(world.0@[idx as int].wf());
            }
            let out = match material.scatter(rng, ray, &hit) {
                ScatterResult::Reflect(attenuation, ray_out) => {
                    let rec = ray_color(rng, &ray_out, world, max_depth - 1);
                    proof {
                        lemma_fmul_unit_bound(
                            attenuation.x as int,
                            rec.x as int,
                            RADIANCE_MAX as int,
                        );
                        lemma_fmul_unit_bound(
                            attenuation.y as int,
                            rec.y as int,
                            RADIANCE_MAX as int,
                        );
                        lemma_fmul_unit_bound(
                            attenuation.z as int,
                            rec.z as int,
                            RADIANCE_MAX as int,
                        );
                    }
                    let tinted_color = attenuation.mul_each(rec);
                    proof {
                        assert(tinted(attenuation, rec, tinted_color));
                        assert(scatter_radiance(material, tinted_color));
                    }
                    tinted_color
                },
                ScatterResult::Absorb => {
                    proof {
                        assert(false);
                    }
                    Color { x: 0, y: 0, z: 0 }
                },
                ScatterResult::Emit(color) => color,
            };
            proof {
                assert(sphere_hit_s(
                    world.0@[idx as int],
                    *ray,
                    TRACE_T_MIN as int,
                    POINT_MAX as int,
                ) matches Some(m) && (forall|j: int|
                    0 <= j < world.0@.len() ==> (#[trigger] sphere_hit_s(
                        world.0@[j],
                        *ray,
                        TRACE_T_MIN as int,
                        POINT_MAX as int,
                    ) matches Some(m2) ==> m.t <= m2.t)) && scatter_radiance(
                    world.0@[idx as int].material,
                    out,
                ));
                assert(hit_color(*world, *ray, out));
            }
            out
        },
        Option::None => background(),
    }
}

/// `p` is the average of an accumulated sum of per-sample estimates:
/// each channel is the fixed-point quotient of the accumulator by the
/// sample count.
pub open spec fn averaged(acc: Color, samples: int, p: Color) -> bool {
    &&& p.x == crate::fixed::fdiv(acc.x as int, samples * FX_ONE)
    &&& p.y == crate::fixed::fdiv(acc.y as int, samples * FX_ONE)
    &&& p.z == crate::fixed::fdiv(acc.z as int, samples * FX_ONE)
}

/// Render one row of the image: for each pixel, average the estimates of
/// jittered samples through the camera.  Each pixel is the average of an
/// accumulated sum of bounded estimates; over an empty scene every
/// sample is the ambient background, so every pixel is exactly that.
pub fn render_line(
    rng: &mut rand::rngs::SmallRng,
    camera: &Camera,
    world: &World,
    j: usize,
    image_width: usize,
    image_height: usize,
    samples_per_pixel: usize,
    max_depth: i32,
) -> (r: Vec<Color>)
    requires
        camera.wf(),
        world.wf(),
        2 <= image_width <= 65536,
        2 <= image_height <= 65536,
        j < image_height,
        1 <= samples_per_pixel <= 1048576,
    ensures
        r@.len() == image_width,
        forall|i: int| 0 <= i < r@.len() ==> color_bounded(#[trigger] r@[i], RADIANCE_MAX as int),
        exists|sums: Seq<Color>|
            #[trigger] sums.len() == r@.len() && forall|i: int|
                0 <= i < r@.len() ==> color_bounded(
                    #[trigger] sums[i],
                    samples_per_pixel * RADIANCE_MAX,
                ) && averaged(sums[i], samples_per_pixel as int, r@[i]),
        world.0@.len() == 0 && max_depth > 0 ==> forall|i: int|
            0 <= i < r@.len() ==> #[trigger] r@[i] == (Color {
                x: BACKGROUND_RG,
                y: BACKGROUND_RG,
                z: BACKGROUND_B,
            }),
{
    let mut result: Vec<Color> = Vec::new();
    let ghost mut accs: Seq<Color> = Seq::empty();
    let wden: i64 = (image_width as i64 - 1) * FX_ONE;
    let hden: i64 = (image_height as i64 - 1) * FX_ONE;
    let mut i: usize = 0;
    while i < image_width
        invariant
            i <= image_width,
            result@.len() == i,
            camera.wf(),
            world.wf(),
            2 <= image_width <= 65536,
            2 <= image_height <= 65536,
            j < image_height,
            1 <= samples_per_pixel <= 1048576,
            wden == (image_width - 1) * FX_ONE,
            hden == (image_height - 1) * FX_ONE,
            forall|k: int|
                0 <= k < result@.len() ==> color_bounded(#[trigger] result@[k], RADIANCE_MAX as int),
            accs.len() == result@.len(),
            forall|k: int|
                0 <= k < result@.len() ==> color_bounded(
                    #[trigger] accs[k],
                    samples_per_pixel * RADIANCE_MAX,
                ) && averaged(accs[k], samples_per_pixel as int, result@[k]),
            world.0@.len() == 0 && max_depth > 0 ==> forall|k: int|
                0 <= k < result@.len() ==> #[trigger] result@[k] == (Color {
                    x: BACKGROUND_RG,
                    y: BACKGROUND_RG,
                    z: BACKGROUND_B,
                }),
        decreases image_width - i,
    {
        let mut sum = Color { x: 0, y: 0, z: 0 };
        let mut s: usize = 0;
        while s < samples_per_pixel
            invariant
                s <= samples_per_pixel,
                camera.wf(),
                world.wf(),
                2 <= image_width <= 65536,
                2 <= image_height <= 65536,
                i < image_width,
                j < image_height,
                1 <= samples_per_pixel <= 1048576,
                wden == (image_width - 1) * FX_ONE,
                hden == (image_height - 1) * FX_ONE,
                0 <= sum.x <= s * RADIANCE_MAX,
                0 <= sum.y <= s * RADIANCE_MAX,
                0 <= sum.z <= s * RADIANCE_MAX,
                world.0@.len() == 0 && max_depth > 0 ==> sum.x == s * BACKGROUND_RG && sum.y == s
                    * BACKGROUND_RG && sum.z == s * BACKGROUND_B,
            decreases samples_per_pixel - s,
        {
            let du = crate::random::random_fx_range(rng, 0, FX_ONE);
            let dv = crate::random::random_fx_range(rng, 0, FX_ONE);
            let ubase: i64 = (i as i64) * FX_ONE + du;
            let vbase: i64 = (j as i64) * FX_ONE + dv;
            proof {
                assert(ubase * FX_ONE <= (2 * FX_ONE as int) * wden) by (nonlinear_arith)
                    requires
                        0 <= ubase <= image_width * FX_ONE,
                        wden == (image_width - 1) * FX_ONE,
                        2 <= image_width,
                ;
                lemma_tdiv_le_mult(ubase * FX_ONE, wden as int, 2 * FX_ONE as int);
                assert(vbase * FX_ONE <= (2 * FX_ONE as int) * hden) by (nonlinear_arith)
                    requires
                        0 <= vbase <= image_height * FX_ONE,
                        hden == (image_height - 1) * FX_ONE,
                        2 <= image_height,
                ;
                lemma_tdiv_le_mult(vbase * FX_ONE, hden as int, 2 * FX_ONE as int);
            }
            let u = fx_div(ubase, wden);
            let v = fx_div(vbase, hden);
            let ray = camera.get_ray(rng, u, v);
            let sample = ray_color(rng, &ray, world, max_depth);
            proof {
                if world.0@.len() == 0 {
                    assert(world_misses(*world, ray));
                }
            }
            sum = Color { x: sum.x + sample.x, y: sum.y + sample.y, z: sum.z + sample.z };
            s = s + 1;
        }
        let sden: i64 = (samples_per_pixel as i64) * FX_ONE;
        proof {
            assert(sum.x * FX_ONE <= RADIANCE_MAX as int * sden) by (nonlinear_arith)
                requires
                    0 <= sum.x <= samples_per_pixel * RADIANCE_MAX,
                    sden == samples_per_pixel * FX_ONE,
            ;
            assert(sum.y * FX_ONE <= RADIANCE_MAX as int * sden) by (nonlinear_arith)
                requires
                    0 <= sum.y <= samples_per_pixel * RADIANCE_MAX,
                    sden == samples_per_pixel * FX_ONE,
            ;
            assert(sum.z * FX_ONE <= RADIANCE_MAX as int * sden) by (nonlinear_arith)
                requires
                    0 <= sum.z <= samples_per_pixel * RADIANCE_MAX,
                    sden == samples_per_pixel * FX_ONE,
            ;
            lemma_tdiv_le_mult(sum.x * FX_ONE, sden as int, RADIANCE_MAX as int);
            lemma_tdiv_le_mult(sum.y * FX_ONE, sden as int, RADIANCE_MAX as int);
            lemma_tdiv_le_mult(sum.z * FX_ONE, sden as int, RADIANCE_MAX as int);
        }
        let pixel = sum.div_fx(sden);
        proof {
            accs = accs.push(sum);
            assert(color_bounded(sum, samples_per_pixel * RADIANCE_MAX) && averaged(
                sum,
                samples_per_pixel as int,
                pixel,
            ));
            if world.0@.len() == 0 && max_depth > 0 {
                vstd::arithmetic::div_mod::lemma_div_by_multiple(BACKGROUND_RG as int, sden as int);
                vstd::arithmetic::div_mod::lemma_div_by_multiple(BACKGROUND_B as int, sden as int);
                assert(sum.x * FX_ONE == BACKGROUND_RG * sden as int) by (nonlinear_arith)
                    requires
                        sum.x == samples_per_pixel * BACKGROUND_RG,
                        sden == samples_per_pixel * FX_ONE,
                ;
                assert(sum.z * FX_ONE == BACKGROUND_B * sden as int) by (nonlinear_arith)
                    requires
                        sum.z == samples_per_pixel * BACKGROUND_B,
                        sden == samples_per_pixel * FX_ONE,
                ;
            }
        }
        result.push(pixel);
        i = i + 1;
    }
    proof {
        assert(accs.len() == result@.len() && forall|k: int|
            0 <= k < result@.len() ==> color_bounded(
                #[trigger] accs[k],
                samples_per_pixel * RADIANCE_MAX,
            ) && averaged(accs[k], samples_per_pixel as int, result@[k]));
    }
    result
}

/// Clamp a scalar to `[min, max]`.
pub fn clamp(x: i64, min: i64, max: i64) -> (r: i64)
    ensures
        r == clamp_s(x as int, min as int, max as int),
{
    if x < min {
        min
    } else if x > max {
        max
    } else {
        x
    }
}

/// The clamped value of `x` in `[min, max]`.
pub open spec fn clamp_s(x: int, min: int, max: int) -> int {
    if x < min {
        min
    } else if x > max {
        max
    } else {
        x
    }
}

/// Largest channel value admitted before quantisation: the grid value of
/// 0.999.
pub const CLAMP_999: i64 = 1047527;

/// Quantise a linear channel value to an 8-bit integer:
/// `floor(256 * clamp(c, 0, 0.999))`.
pub fn to_8bit_color(c: i64) -> (r: i32)
    ensures
        r == tdiv(256 * clamp_s(c as int, 0, CLAMP_999 as int), FX_ONE as int),
        0 <= r <= 255,
{
    let cl = clamp(c, 0, CLAMP_999);
    let p: i64 = 256 * cl;
    proof {
        vstd::arithmetic::div_mod::lemma_div_is_ordered(p as int, 268435455, FX_ONE as int);
        vstd::arithmetic::div_mod::lemma_div_pos_is_pos(p as int, FX_ONE as int);
    }
    let q = crate::fixed::tdiv_i128(p as i128, FX_ONE as i128);
    q as i32
}

/// Gamma correction for output: the square root of a nonnegative channel
/// value, on the fixed-point grid.
pub fn gamma_sqrt(c: i64) -> (r: i64)
    requires
        0 <= c,
    ensures
        r == sqrt_i(c as int * FX_ONE),
        0 <= r,
{
    let p: i128 = (c as i128) * (FX_ONE as i128);
    let r64 = isqrt_u128(p as u128);
    proof {
        assert(r64 as int <= 4398046511104) by (nonlinear_arith)
            requires
                crate::fixed::is_sqrt(c as int * FX_ONE as int, r64 as int),
                0 <= c <= 9223372036854775807,
                r64 >= 0,
        ;
    }
    r64 as i64
}

} // verus!
