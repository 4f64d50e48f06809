//! Spheres and the scene: ray intersection and closest-hit selection.

use crate::fixed::{fmul, fx_mul, is_sqrt, isqrt_u128, lemma_sqrt, sqrt_i, tdiv, FX_ONE};
use crate::hittable::{Hit, HitModel};
use crate::material::Material;
use crate::vec3::{in_range, norm2_n, normalize_s, Point3, Ray, UnitVec3, COORD_MAX, POINT_MAX};
use vstd::prelude::*;

verus! {

/// A sphere with an owned material.
#[derive(Clone, Copy, Debug)]
pub struct Sphere {
    pub center: Point3,
    pub radius: i64,
    pub material: Material,
}

/// What `Sphere::hit` returns, as a function of its arguments.
///
/// The quadratic for the ray parameter is solved in the half-b form; a
/// negative discriminant is a miss, else the nearer root is taken when it
/// lies in the admitted range, the farther one otherwise.  Two guards
/// reject fixed-point corner cases: a hit point outside the representable
/// range, and a hit point that coincides with the centre, where no
/// outward normal exists on the grid.
pub open spec fn sphere_hit_s(s: Sphere, ray: Ray, t_min: int, t_max: int) -> Option<HitModel> {
    let ocx = ray.origin.x - s.center.x;
    let ocy = ray.origin.y - s.center.y;
    let ocz = ray.origin.z - s.center.z;
    let half_b = tdiv(
        ocx * ray.direction.0.x + ocy * ray.direction.0.y + ocz * ray.direction.0.z,
        FX_ONE as int,
    );
    let c = tdiv(ocx * ocx + ocy * ocy + ocz * ocz, FX_ONE as int) - fmul(
        s.radius as int,
        s.radius as int,
    );
    let disc = fmul(half_b, half_b) - c;
    if disc < 0 {
        None
    } else {
        let sq = sqrt_i(disc * FX_ONE);
        let r0 = -half_b - sq;
        let r1 = -half_b + sq;
        let root = if t_min <= r0 && r0 <= t_max {
            r0
        } else {
            r1
        };
        if !(t_min <= root && root <= t_max) {
            None
        } else {
            let px = ray.origin.x + fmul(ray.direction.0.x as int, root);
            let py = ray.origin.y + fmul(ray.direction.0.y as int, root);
            let pz = ray.origin.z + fmul(ray.direction.0.z as int, root);
            if !(-POINT_MAX <= px <= POINT_MAX && -POINT_MAX <= py <= POINT_MAX && -POINT_MAX <= pz
                <= POINT_MAX) {
                None
            } else if px == s.center.x && py == s.center.y && pz == s.center.z {
                None
            } else {
                let nv = normalize_s(px - s.center.x, py - s.center.y, pz - s.center.z);
                let front = ray.direction.0.x * nv.0 + ray.direction.0.y * nv.1
                    + ray.direction.0.z * nv.2 < 0;
                Some(
                    HitModel {
                        point: (px, py, pz),
                        normal: if front {
                            nv
                        } else {
                            (-nv.0, -nv.1, -nv.2)
                        },
                        t: root,
                        front: front,
                    },
                )
            }
        }
    }
}

/// The image of an optional hit record.
pub open spec fn opt_hit_model(o: Option<Hit>) -> Option<HitModel> {
    match o {
        Option::None => None,
        Option::Some(h) => Some(h@),
    }
}

impl Sphere {
    /// The centre and radius are representable and the radius is
    /// positive.
    pub open spec fn wf(self) -> bool {
        &&& in_range(self.center, COORD_MAX as int)
        &&& 0 < self.radius <= COORD_MAX
        &&& self.material.wf()
    }

    pub fn new(center: Point3, radius: i64, material: &Material) -> (r: Self)
        ensures
            r == (Sphere { center, radius, material: *material }),
    {
        Sphere { center, radius, material: *material }
    }

    /// The outward unit normal at a surface point distinct from the
    /// centre.
    fn outward_normal(&self, point: Point3) -> (r: UnitVec3)
        requires
            in_range(self.center, COORD_MAX as int),
            in_range(point, POINT_MAX as int),
            !(point.x == self.center.x && point.y == self.center.y && point.z == self.center.z),
        ensures
            r.wf(),
            crate::vec3::unit_comps(r) == normalize_s(
                point.x - self.center.x,
                point.y - self.center.y,
                point.z - self.center.z,
            ),
    {
        point.minus(self.center).unit_vector()
    }

    /// Intersect a ray with this sphere over the parameter range
    /// `[t_min, t_max]`.
    ///
    /// Beyond the quadratic's own miss conditions, the two grid guards of
    /// `sphere_hit_s` can turn a root in range into a miss: a hit point
    /// beyond the representable range, or one that truncates onto the
    /// centre.  The real intersection test has no such cases; they are
    /// the price of keeping every hit record representable, and they
    /// cannot fire for spheres more than a few grid steps wide struck
    /// within the scene's coordinate range.
    pub fn hit(&self, ray: &Ray, t_min: i64, t_max: i64) -> (res: Option<Hit>)
        requires
            self.wf(),
            ray.wf(),
            0 <= t_min <= t_max <= POINT_MAX,
        ensures
            opt_hit_model(res) == sphere_hit_s(*self, *ray, t_min as int, t_max as int),
            res matches Some(h) ==> h.wf() && t_min <= h.t <= t_max,
    {
        let oc = ray.origin.minus(self.center);
        proof {
            crate::vec3::lemma_dot_bound(oc, ray.direction.0, 343597383680, FX_ONE as int);
            crate::vec3::lemma_norm2_bound(oc, 343597383680);
            crate::fixed::lemma_tdiv_in_range(
                norm2_n(oc),
                FX_ONE as int,
                3 * (343597383680int * 343597383680),
            );
            crate::fixed::lemma_fmul_bound(
                self.radius as int,
                self.radius as int,
                COORD_MAX as int,
                COORD_MAX as int,
            );
        }
        let half_b = oc.dot(ray.direction.as_vec3());
        let c = oc.length_squared() - fx_mul(self.radius, self.radius);
        proof {
            crate::fixed::lemma_fmul_bound(
                half_b as int,
                half_b as int,
                1030792151040,
                1030792151040,
            );
        }
        let disc = fx_mul(half_b, half_b) - c;
        if disc < 0 {
            return None;
        }
        let prod: i128 = (disc as i128) * (FX_ONE as i128);
        let sq64 = isqrt_u128(prod as u128);
        proof {
            assert(sq64 as int <= 2199023255552) by (nonlinear_arith)
                requires
                    is_sqrt(disc as int * FX_ONE as int, sq64 as int),
                    0 <= disc as int * FX_ONE as int <= 2199023255552int * 2199023255552,
                    sq64 >= 0,
            ;
        }
        let sq = sq64 as i64;
        let r0 = -half_b - sq;
        let r1 = -half_b + sq;
        let root = if t_min <= r0 && r0 <= t_max {
            r0
        } else {
            r1
        };
        if !(t_min <= root && root <= t_max) {
            return None;
        }
        let point = ray.at(root);
        if !point.bounded(POINT_MAX) {
            return None;
        }
        if point == self.center {
            return None;
        }
        let outward = self.outward_normal(point);
        Some(Hit::new(root, ray, point, outward))
    }
}

/// Shrinking the upper end of the parameter range only discards farther
/// hits: a hit found in the narrow range is the hit of the wide range,
/// and a wide-range hit within the narrow bound is found there too.
pub proof fn lemma_sphere_hit_shrink(s: Sphere, ray: Ray, t_min: int, c: int, t_max: int)
    requires
        t_min <= c <= t_max,
    ensures
        sphere_hit_s(s, ray, t_min, c) matches Some(m) ==> sphere_hit_s(s, ray, t_min, t_max)
            == Some(m),
        sphere_hit_s(s, ray, t_min, t_max) matches Some(m) ==> (m.t <= c ==> sphere_hit_s(
            s,
            ray,
            t_min,
            c,
        ) == Some(m)),
{
    let ocx = ray.origin.x - s.center.x;
    let ocy = ray.origin.y - s.center.y;
    let ocz = ray.origin.z - s.center.z;
    let half_b = tdiv(
        ocx * ray.direction.0.x + ocy * ray.direction.0.y + ocz * ray.direction.0.z,
        FX_ONE as int,
    );
    let cc = tdiv(ocx * ocx + ocy * ocy + ocz * ocz, FX_ONE as int) - fmul(
        s.radius as int,
        s.radius as int,
    );
    let disc = fmul(half_b, half_b) - cc;
    if disc >= 0 {
        lemma_sqrt(disc * FX_ONE);
        assert(sqrt_i(disc * FX_ONE) >= 0);
    }
}

/// The scene: an ordered collection of spheres, queried read-only.
pub struct World(pub Vec<Sphere>);

impl World {
    /// Every sphere of the scene is well formed.
    pub open spec fn wf(self) -> bool {
        forall|i: int| 0 <= i < self.0@.len() ==> self.0@[i].wf()
    }

    pub fn new(spheres: Vec<Sphere>) -> (r: Self)
        ensures
            r.0 == spheres,
    {
        World(spheres)
    }

    /// The closest hit over all spheres: the scan keeps the nearest
    /// accepted parameter so far and tightens the admitted range, so the
    /// result is the hit of smallest parameter, never a farther one, and
    /// a miss means every sphere misses.
    pub fn hit(&self, ray: &Ray, t_min: i64, t_max: i64) -> (res: Option<(Hit, usize)>)
        requires
            self.wf(),
            ray.wf(),
            0 <= t_min <= t_max <= POINT_MAX,
        ensures
            res is None ==> forall|j: int|
                0 <= j < self.0@.len() ==> sphere_hit_s(
                    self.0@[j],
                    *ray,
                    t_min as int,
                    t_max as int,
                ) is None,
            res matches Some((h, i)) ==> i < self.0@.len() && sphere_hit_s(
                self.0@[i as int],
                *ray,
                t_min as int,
                t_max as int,
            ) == Some(h@) && h.wf() && t_min <= h.t <= t_max && forall|j: int|
                0 <= j < self.0@.len() ==> (#[trigger] sphere_hit_s(
                    self.0@[j],
                    *ray,
                    t_min as int,
                    t_max as int,
                ) matches Some(m) ==> h@.t <= m.t),
    {
        let mut closest_so_far = t_max;
        let mut best_so_far: Option<(Hit, usize)> = None;
        let n = self.0.len();
        let mut i: usize = 0;
        while i < n
            invariant
                n == self.0@.len(),
                i <= n,
                self.wf(),
                ray.wf(),
                0 <= t_min <= t_max <= POINT_MAX,
                t_min <= closest_so_far <= t_max,
                match best_so_far {
                    Option::None => closest_so_far == t_max && forall|j: int|
                        0 <= j < i ==> sphere_hit_s(
                            self.0@[j],
                            *ray,
                            t_min as int,
                            t_max as int,
                        ) is None,
                    Option::Some((h, bi)) => bi < i && sphere_hit_s(
                        self.0@[bi as int],
                        *ray,
                        t_min as int,
                        t_max as int,
                    ) == Some(h@) && h.wf() && t_min <= h.t <= t_max && closest_so_far == h.t
                        && forall|j: int|
                        0 <= j < i ==> (#[trigger] sphere_hit_s(
                            self.0@[j],
                            *ray,
                            t_min as int,
                            t_max as int,
                        ) matches Some(m) ==> h@.t <= m.t),
                },
            decreases n - i,
        {
            let sphere = &self.0[i];
            proof {
                lemma_sphere_hit_shrink(
                    *sphere,
                    *ray,
                    t_min as int,
                    closest_so_far as int,
                    t_max as int,
                );
            }
            match sphere.hit(ray, t_min, closest_so_far) {
                Option::Some(h) => {
                    closest_so_far = h.t;
                    best_so_far = Some((h, i));
                },
                Option::None => {},
            }
            i = i + 1;
        }
        best_so_far
    }
}

} // verus!
