//! Hit records: what an intersection test reports.

use crate::fixed::FX_ONE;
use crate::vec3::{dot_n, in_range, Point3, Ray, UnitVec3, POINT_MAX};
use vstd::prelude::*;

verus! {

/// Which side of the surface the ray arrived from.
#[derive(Clone, Copy, Debug, PartialEq, Eq, Structural)]
pub enum Face {
    Front,
    Back,
}

/// The mathematical image of a hit record, over unbounded integers.
pub ghost struct HitModel {
    pub point: (int, int, int),
    pub normal: (int, int, int),
    pub t: int,
    pub front: bool,
}

/// One intersection: the hit point, the oriented normal (always opposing
/// the incoming ray), the ray parameter, and the side that was struck.
#[derive(Clone, Copy, Debug)]
pub struct Hit {
    pub point: Point3,
    pub normal: UnitVec3,
    pub t: i64,
    pub face: Face,
}

impl View for Hit {
    type V = HitModel;

    open spec fn view(&self) -> HitModel {
        HitModel {
            point: (self.point.x as int, self.point.y as int, self.point.z as int),
            normal: (self.normal.0.x as int, self.normal.0.y as int, self.normal.0.z as int),
            t: self.t as int,
            front: self.face is Front,
        }
    }
}

/// The hit record built from a root, a ray, the hit point and the outward
/// normal: the ray struck the front face exactly when the inner product
/// of its direction and the outward normal is negative (compared before
/// any scaling down, so the grid loses no sign information), and the
/// stored normal is flipped to oppose the ray.
pub open spec fn hit_new_s(root: int, ray: Ray, point: Point3, outward: UnitVec3) -> HitModel {
    let front = dot_n(ray.direction.0, outward.0) < 0;
    HitModel {
        point: (point.x as int, point.y as int, point.z as int),
        normal: if front {
            (outward.0.x as int, outward.0.y as int, outward.0.z as int)
        } else {
            (-outward.0.x as int, -outward.0.y as int, -outward.0.z as int)
        },
        t: root,
        front: front,
    }
}

impl Hit {
    /// The point is representable, the normal is a unit vector and the
    /// parameter is a valid ray parameter.
    pub open spec fn wf(self) -> bool {
        &&& in_range(self.point, POINT_MAX as int)
        &&& self.normal.wf()
        &&& 0 <= self.t <= POINT_MAX
    }

    pub fn new(root: i64, ray: &Ray, point: Point3, outward_normal: UnitVec3) -> (r: Self)
        requires
            ray.wf(),
            outward_normal.wf(),
            in_range(point, POINT_MAX as int),
            0 <= root <= POINT_MAX,
        ensures
            r@ == hit_new_s(root as int, *ray, point, outward_normal),
            r.wf(),
    {
        proof {
            let s = FX_ONE as int;
            assert(-(s * s) <= ray.direction.0.x * outward_normal.0.x <= s * s)
                by (nonlinear_arith)
                requires
                    -s <= ray.direction.0.x <= s && -s <= outward_normal.0.x <= s,
            ;
            assert(-(s * s) <= ray.direction.0.y * outward_normal.0.y <= s * s)
                by (nonlinear_arith)
                requires
                    -s <= ray.direction.0.y <= s && -s <= outward_normal.0.y <= s,
            ;
            assert(-(s * s) <= ray.direction.0.z * outward_normal.0.z <= s * s)
                by (nonlinear_arith)
                requires
                    -s <= ray.direction.0.z <= s && -s <= outward_normal.0.z <= s,
            ;
        }
        let dn: i128 = (ray.direction.0.x as i128) * (outward_normal.0.x as i128) + (
        ray.direction.0.y as i128) * (outward_normal.0.y as i128) + (ray.direction.0.z as i128) * (
        outward_normal.0.z as i128);
        let face = if dn < 0 {
            Face::Front
        } else {
            Face::Back
        };
        Hit {
            t: root,
            point: point,
            normal: match face {
                Face::Front => outward_normal,
                Face::Back => outward_normal.neg(),
            },
            face: face,
        }
    }
}

} // verus!
