//! The camera: mapping viewport sample coordinates to primary rays.

use crate::fixed::{fdiv, fmul, fx_div, fx_mul, FX_ONE};
use crate::random::random_in_unit_disk;
use crate::vec3::{
    in_range, normalize_s, unit_comps, CrossProduct, Point3, Ray, UnitVec3, Vec3, COORD_MAX,
};
use vstd::prelude::*;

verus! {

/// Largest admitted tangent of the half field of view (8 in real terms).
pub const TAN_MAX: i64 = 8388608;

/// Largest admitted aspect ratio (8 in real terms).
pub const ASPECT_MAX: i64 = 8388608;

/// Largest admitted aperture and focus distance (1024 in real terms).
pub const LENS_MAX: i64 = 1073741824;

/// The mathematical image of a camera, over unbounded integers.
pub ghost struct CameraModel {
    pub origin: (int, int, int),
    pub lower_left: (int, int, int),
    pub horizontal: (int, int, int),
    pub vertical: (int, int, int),
    pub u: (int, int, int),
    pub v: (int, int, int),
    pub lens_radius: int,
}

/// The camera a construction builds: the orthonormal basis comes from
/// look-from, look-at and up by normalised cross products (a degenerate
/// zero cross product falls back to a fixed axis), and the viewport
/// extents scale the tangent of the half field of view by the aspect
/// ratio and the focus distance.
pub open spec fn cam_build_s(
    look_from: Point3,
    look_at: Point3,
    vup: Vec3,
    tan_half_vfov: int,
    aspect_ratio: int,
    aperture: int,
    focus_distance: int,
) -> CameraModel {
    let w = normalize_s(
        look_from.x - look_at.x,
        look_from.y - look_at.y,
        look_from.z - look_at.z,
    );
    let cu = (
        fmul(vup.y as int, w.2) - fmul(vup.z as int, w.1),
        fmul(vup.z as int, w.0) - fmul(vup.x as int, w.2),
        fmul(vup.x as int, w.1) - fmul(vup.y as int, w.0),
    );
    let u = if cu == (0int, 0int, 0int) {
        (FX_ONE as int, 0int, 0int)
    } else {
        normalize_s(cu.0, cu.1, cu.2)
    };
    let cv = (
        fmul(w.1, u.2) - fmul(w.2, u.1),
        fmul(w.2, u.0) - fmul(w.0, u.2),
        fmul(w.0, u.1) - fmul(w.1, u.0),
    );
    let v = if cv == (0int, 0int, 0int) {
        u
    } else {
        normalize_s(cv.0, cv.1, cv.2)
    };
    let viewport_height = 2 * tan_half_vfov;
    let viewport_width = fmul(aspect_ratio, viewport_height);
    let kh = fmul(focus_distance, viewport_width);
    let kv = fmul(focus_distance, viewport_height);
    let horizontal = (fmul(u.0, kh), fmul(u.1, kh), fmul(u.2, kh));
    let vertical = (fmul(v.0, kv), fmul(v.1, kv), fmul(v.2, kv));
    let lower_left = (
        look_from.x - fdiv(horizontal.0 + vertical.0, 2 * FX_ONE) - fmul(w.0, focus_distance),
        look_from.y - fdiv(horizontal.1 + vertical.1, 2 * FX_ONE) - fmul(w.1, focus_distance),
        look_from.z - fdiv(horizontal.2 + vertical.2, 2 * FX_ONE) - fmul(w.2, focus_distance),
    );
    CameraModel {
        origin: (look_from.x as int, look_from.y as int, look_from.z as int),
        lower_left: lower_left,
        horizontal: horizontal,
        vertical: vertical,
        u: u,
        v: v,
        lens_radius: fdiv(aperture, 2 * FX_ONE),
    }
}

/// The ray cast through viewport coordinates `(s, t)` with a given lens
/// offset: the origin is shifted across the aperture disk, and the
/// direction aims at the focus-plane point for `(s, t)`; a degenerate
/// zero aim falls back to the vertical basis vector.
pub open spec fn ray_through_s(cam: CameraModel, s: int, t: int, dx: int, dy: int) -> (
    (int, int, int),
    (int, int, int),
) {
    let a = fmul(cam.lens_radius, dx);
    let b = fmul(cam.lens_radius, dy);
    let offset = (
        fmul(cam.u.0, a) + fmul(cam.v.0, b),
        fmul(cam.u.1, a) + fmul(cam.v.1, b),
        fmul(cam.u.2, a) + fmul(cam.v.2, b),
    );
    let origin = (cam.origin.0 + offset.0, cam.origin.1 + offset.1, cam.origin.2 + offset.2);
    let aim = (
        cam.lower_left.0 + fmul(cam.horizontal.0, s) + fmul(cam.vertical.0, t) - origin.0,
        cam.lower_left.1 + fmul(cam.horizontal.1, s) + fmul(cam.vertical.1, t) - origin.1,
        cam.lower_left.2 + fmul(cam.horizontal.2, s) + fmul(cam.vertical.2, t) - origin.2,
    );
    let dir = if aim == (0int, 0int, 0int) {
        cam.v
    } else {
        normalize_s(aim.0, aim.1, aim.2)
    };
    (origin, dir)
}

/// The camera: an origin, an orthonormal viewport basis, the viewport's
/// lower-left corner and extents in world space, and a lens radius for
/// depth of field.
pub struct Camera {
    origin: Point3,
    lower_left_corner: Point3,
    horizontal: Vec3,
    vertical: Vec3,
    u: UnitVec3,
    v: UnitVec3,
    lens_radius: i64,
}

impl View for Camera {
    type V = CameraModel;

    closed spec fn view(&self) -> CameraModel {
        CameraModel {
            origin: (self.origin.x as int, self.origin.y as int, self.origin.z as int),
            lower_left: (
                self.lower_left_corner.x as int,
                self.lower_left_corner.y as int,
                self.lower_left_corner.z as int,
            ),
            horizontal: (
                self.horizontal.x as int,
                self.horizontal.y as int,
                self.horizontal.z as int,
            ),
            vertical: (self.vertical.x as int, self.vertical.y as int, self.vertical.z as int),
            u: unit_comps(self.u),
            v: unit_comps(self.v),
            lens_radius: self.lens_radius as int,
        }
    }
}

impl Camera {
    /// The stored fields stay within the ranges the ray computations
    /// need.
    pub closed spec fn wf(self) -> bool {
        &&& in_range(self.origin, COORD_MAX as int)
        &&& in_range(self.lower_left_corner, 549755813888)
        &&& in_range(self.horizontal, 274877906944)
        &&& in_range(self.vertical, 274877906944)
        &&& self.u.wf()
        &&& self.v.wf()
        &&& 0 <= self.lens_radius <= LENS_MAX
    }

    /// Build a camera from look-from, look-at and up, the tangent of the
    /// half vertical field of view, the aspect ratio, the aperture and
    /// the focus distance.
    pub fn new(
        look_from: Point3,
        look_at: Point3,
        vup: Vec3,
        tan_half_vfov: i64,
        aspect_ratio: i64,
        aperture: i64,
        focus_distance: i64,
    ) -> (r: Self)
        requires
            in_range(look_from, COORD_MAX as int),
            in_range(look_at, COORD_MAX as int),
            in_range(vup, COORD_MAX as int),
            !(look_from.x == look_at.x && look_from.y == look_at.y && look_from.z == look_at.z),
            0 < tan_half_vfov <= TAN_MAX,
            0 < aspect_ratio <= ASPECT_MAX,
            0 <= aperture <= LENS_MAX,
            0 < focus_distance <= LENS_MAX,
        ensures
            r.wf(),
            r@ == cam_build_s(
                look_from,
                look_at,
                vup,
                tan_half_vfov as int,
                aspect_ratio as int,
                aperture as int,
                focus_distance as int,
            ),
    {
        let w = look_from.minus(look_at).unit_vector();
        proof {
            let s = FX_ONE as int;
            let cm = COORD_MAX as int;
            crate::fixed::lemma_fmul_bound(vup.y as int, w.0.z as int, cm, s);
            crate::fixed::lemma_fmul_bound(vup.z as int, w.0.y as int, cm, s);
            crate::fixed::lemma_fmul_bound(vup.z as int, w.0.x as int, cm, s);
            crate::fixed::lemma_fmul_bound(vup.x as int, w.0.z as int, cm, s);
            crate::fixed::lemma_fmul_bound(vup.x as int, w.0.y as int, cm, s);
            crate::fixed::lemma_fmul_bound(vup.y as int, w.0.x as int, cm, s);
        }
        let cu = vup.cross(w.as_vec3());
        let u = if cu.near_zero() {
            UnitVec3(Vec3 { x: FX_ONE, y: 0, z: 0 })
        } else {
            cu.unit_vector()
        };
        proof {
            let s = FX_ONE as int;
            crate::fixed::lemma_fmul_bound(w.0.y as int, u.0.z as int, s, s);
            crate::fixed::lemma_fmul_bound(w.0.z as int, u.0.y as int, s, s);
            crate::fixed::lemma_fmul_bound(w.0.z as int, u.0.x as int, s, s);
            crate::fixed::lemma_fmul_bound(w.0.x as int, u.0.z as int, s, s);
            crate::fixed::lemma_fmul_bound(w.0.x as int, u.0.y as int, s, s);
            crate::fixed::lemma_fmul_bound(w.0.y as int, u.0.x as int, s, s);
        }
        let cv = w.as_vec3().cross(u.as_vec3());
        let v = if cv.near_zero() {
            u
        } else {
            cv.unit_vector()
        };
        let viewport_height = 2 * tan_half_vfov;
        proof {
            crate::fixed::lemma_fmul_bound(
                aspect_ratio as int,
                viewport_height as int,
                ASPECT_MAX as int,
                2 * TAN_MAX as int,
            );
        }
        let viewport_width = fx_mul(aspect_ratio, viewport_height);
        proof {
            crate::fixed::lemma_fmul_bound(
                focus_distance as int,
                viewport_width as int,
                LENS_MAX as int,
                134217728,
            );
            crate::fixed::lemma_fmul_bound(
                focus_distance as int,
                viewport_height as int,
                LENS_MAX as int,
                2 * TAN_MAX as int,
            );
        }
        let kh = fx_mul(focus_distance, viewport_width);
        let kv = fx_mul(focus_distance, viewport_height);
        proof {
            let s = FX_ONE as int;
            crate::fixed::lemma_fmul_bound(u.0.x as int, kh as int, s, 137438953472);
            crate::fixed::lemma_fmul_bound(u.0.y as int, kh as int, s, 137438953472);
            crate::fixed::lemma_fmul_bound(u.0.z as int, kh as int, s, 137438953472);
            crate::fixed::lemma_fmul_bound(v.0.x as int, kv as int, s, 17179869184);
            crate::fixed::lemma_fmul_bound(v.0.y as int, kv as int, s, 17179869184);
            crate::fixed::lemma_fmul_bound(v.0.z as int, kv as int, s, 17179869184);
        }
        let horizontal = u.as_vec3().scale(kh);
        let vertical = v.as_vec3().scale(kv);
        proof {
            let s = FX_ONE as int;
            crate::fixed::lemma_fmul_bound(w.0.x as int, focus_distance as int, s, LENS_MAX as int);
            crate::fixed::lemma_fmul_bound(w.0.y as int, focus_distance as int, s, LENS_MAX as int);
            crate::fixed::lemma_fmul_bound(w.0.z as int, focus_distance as int, s, LENS_MAX as int);
            lemma_half_bound(horizontal.x as int + vertical.x as int, 154618822656);
            lemma_half_bound(horizontal.y as int + vertical.y as int, 154618822656);
            lemma_half_bound(horizontal.z as int + vertical.z as int, 154618822656);
            lemma_half_bound(aperture as int, LENS_MAX as int);
        }
        let half_extent = horizontal.plus(vertical).div_fx(2 * FX_ONE);
        let lower_left_corner = look_from.minus(half_extent).minus(w.as_vec3().scale(
            focus_distance,
        ));
        let lens_radius = fx_div(aperture, 2 * FX_ONE);
        Camera {
            origin: look_from,
            lower_left_corner,
            horizontal,
            vertical,
            u,
            v,
            lens_radius,
        }
    }

    /// The ray for viewport coordinates `(s, t)` and a given point of the
    /// aperture disk.
    pub fn ray_through(&self, s: i64, t: i64, disk: Vec3) -> (r: Ray)
        requires
            self.wf(),
            0 <= s <= 2 * FX_ONE,
            0 <= t <= 2 * FX_ONE,
            in_range(disk, FX_ONE as int),
        ensures
            r.wf(),
            (r.origin.x as int, r.origin.y as int, r.origin.z as int) == ray_through_s(
                self@,
                s as int,
                t as int,
                disk.x as int,
                disk.y as int,
            ).0,
            unit_comps(r.direction) == ray_through_s(
                self@,
                s as int,
                t as int,
                disk.x as int,
                disk.y as int,
            ).1,
    {
        proof {
            let s1 = FX_ONE as int;
            crate::fixed::lemma_fmul_bound(
                self.lens_radius as int,
                disk.x as int,
                LENS_MAX as int,
                s1,
            );
            crate::fixed::lemma_fmul_bound(
                self.lens_radius as int,
                disk.y as int,
                LENS_MAX as int,
                s1,
            );
        }
        let a = fx_mul(self.lens_radius, disk.x);
        let b = fx_mul(self.lens_radius, disk.y);
        proof {
            let s1 = FX_ONE as int;
            crate::fixed::lemma_fmul_bound(self.u.0.x as int, a as int, s1, LENS_MAX as int);
            crate::fixed::lemma_fmul_bound(self.u.0.y as int, a as int, s1, LENS_MAX as int);
            crate::fixed::lemma_fmul_bound(self.u.0.z as int, a as int, s1, LENS_MAX as int);
            crate::fixed::lemma_fmul_bound(self.v.0.x as int, b as int, s1, LENS_MAX as int);
            crate::fixed::lemma_fmul_bound(self.v.0.y as int, b as int, s1, LENS_MAX as int);
            crate::fixed::lemma_fmul_bound(self.v.0.z as int, b as int, s1, LENS_MAX as int);
        }
        let offset = self.u.as_vec3().scale(a).plus(self.v.as_vec3().scale(b));
        let origin = self.origin.plus(offset);
        proof {
            let s2 = 2 * FX_ONE as int;
            crate::fixed::lemma_fmul_bound(
                self.horizontal.x as int,
                s as int,
                274877906944,
                s2,
            );
            crate::fixed::lemma_fmul_bound(
                self.horizontal.y as int,
                s as int,
                274877906944,
                s2,
            );
            crate::fixed::lemma_fmul_bound(
                self.horizontal.z as int,
                s as int,
                274877906944,
                s2,
            );
            crate::fixed::lemma_fmul_bound(self.vertical.x as int, t as int, 274877906944, s2);
            crate::fixed::lemma_fmul_bound(self.vertical.y as int, t as int, 274877906944, s2);
            crate::fixed::lemma_fmul_bound(self.vertical.z as int, t as int, 274877906944, s2);
        }
        let aim = self.lower_left_corner.plus(self.horizontal.scale(s)).plus(
            self.vertical.scale(t),
        ).minus(origin);
        let dir = if aim.near_zero() {
            self.v
        } else {
            aim.unit_vector()
        };
        Ray::new(origin, dir)
    }

    /// The primary ray for viewport coordinates `(s, t)`: the origin is
    /// jittered across the aperture disk for depth of field.
    pub fn get_ray(&self, rng: &mut rand::rngs::SmallRng, s: i64, t: i64) -> (r: Ray)
        requires
            self.wf(),
            0 <= s <= 2 * FX_ONE,
            0 <= t <= 2 * FX_ONE,
        ensures
            r.wf(),
            exists|d: Vec3|
                in_range(d, FX_ONE as int) && d.z == 0 && (r.origin.x as int, r.origin.y as int, r.origin.z as int)
                    == ray_through_s(self@, s as int, t as int, d.x as int, d.y as int).0
                    && unit_comps(r.direction) == ray_through_s(
                    self@,
                    s as int,
                    t as int,
                    d.x as int,
                    d.y as int,
                ).1,
    {
        let d = random_in_unit_disk(rng);
        let r = self.ray_through(s, t, d);
        proof {
            assert(in_range(d, FX_ONE as int) && d.z == 0 && (r.origin.x as int, r.origin.y as int,
                r.origin.z as int) == ray_through_s(
                self@,
                s as int,
                t as int,
                d.x as int,
                d.y as int,
            ).0 && unit_comps(r.direction) == ray_through_s(
                self@,
                s as int,
                t as int,
                d.x as int,
                d.y as int,
            ).1);
        }
        r
    }
}

/// Halving keeps a bounded scalar within its bound.
proof fn lemma_half_bound(a: int, c: int)
    requires
        0 <= c <= i64::MAX,
        -c <= a <= c,
    ensures
        -c <= fdiv(a, 2 * FX_ONE) <= c,
        -i64::MAX <= fdiv(a, 2 * FX_ONE) <= i64::MAX,
{
    assert(-(c * FX_ONE) <= a * FX_ONE <= c * FX_ONE) by (nonlinear_arith)
        requires
            -c <= a <= c,
            0 <= c,
    ;
    crate::fixed::lemma_tdiv_in_range(a * FX_ONE, 2 * FX_ONE as int, c * FX_ONE);
    vstd::arithmetic::div_mod::lemma_fundamental_div_mod(c * FX_ONE, 2 * FX_ONE as int);
    assert((c * FX_ONE) / (2 * FX_ONE as int) <= c) by (nonlinear_arith)
        requires
            0 <= c,
            c * FX_ONE == (2 * FX_ONE as int) * ((c * FX_ONE) / (2 * FX_ONE as int)) + (c * FX_ONE)
                % (2 * FX_ONE as int),
            0 <= (c * FX_ONE) % (2 * FX_ONE as int),
    ;
}

} // verus!
