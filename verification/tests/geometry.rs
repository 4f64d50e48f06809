use raytracelib::fixed::FX_ONE;
use raytracelib::hittable::Face;
use raytracelib::material::{Diffuse, Material};
use raytracelib::vec3::{Color, Ray, Vec3, POINT_MAX};
use raytracelib::world::{Sphere, World};

const S: i64 = FX_ONE;

fn grey() -> Material {
    Material::Diffuse(Diffuse { albedo: Color { x: S / 2, y: S / 2, z: S / 2 } })
}

fn forward_ray() -> Ray {
    Ray::new(Vec3::new(0, 0, 0), Vec3::new(0, 0, -S).unit_vector())
}

#[test]
fn sphere_hit_head_on() {
    // a sphere half a unit wide, one unit down the axis: the ray strikes
    // its front face at exactly half a unit
    let sphere = Sphere::new(Vec3::new(0, 0, -S), S / 2, &grey());
    let hit = sphere.hit(&forward_ray(), 0, POINT_MAX).expect("must hit");
    assert_eq!(hit.t, S / 2);
    assert_eq!(hit.point, Vec3::new(0, 0, -S / 2));
    assert_eq!(hit.normal.as_vec3(), Vec3::new(0, 0, S));
    assert_eq!(hit.face, Face::Front);
}

#[test]
fn sphere_hit_from_inside() {
    // starting at the centre, the ray leaves through the far surface
    let sphere = Sphere::new(Vec3::new(0, 0, 0), S, &grey());
    let hit = sphere.hit(&forward_ray(), 0, POINT_MAX).expect("must hit");
    assert_eq!(hit.t, S);
    assert_eq!(hit.face, Face::Back);
    // the stored normal opposes the ray: it points back toward +z
    assert_eq!(hit.normal.as_vec3(), Vec3::new(0, 0, S));
}

#[test]
fn sphere_miss_behind() {
    let sphere = Sphere::new(Vec3::new(0, 0, S * 4), S / 2, &grey());
    assert!(sphere.hit(&forward_ray(), 0, POINT_MAX).is_none());
}

#[test]
fn sphere_respects_range() {
    let sphere = Sphere::new(Vec3::new(0, 0, -S), S / 2, &grey());
    // the whole sphere lies beyond the admitted range
    assert!(sphere.hit(&forward_ray(), 0, S / 4).is_none());
    // the nearer surface is cut off, so the farther one is reported
    let hit = sphere.hit(&forward_ray(), S, POINT_MAX).expect("must hit");
    assert_eq!(hit.t, 3 * S / 2);
    assert_eq!(hit.face, Face::Back);
}

#[test]
fn world_returns_nearest_hit() {
    // two overlapping spheres along the ray: the nearer surface wins,
    // whatever the scene order
    let a = Sphere::new(Vec3::new(0, 0, -S), S / 2, &grey());
    let b = Sphere::new(Vec3::new(0, 0, -5 * S / 4), S / 2, &grey());
    let w1 = World::new(vec![a, b]);
    let (hit1, idx1) = w1.hit(&forward_ray(), 0, POINT_MAX).expect("must hit");
    assert_eq!(hit1.t, S / 2);
    assert_eq!(idx1, 0);
    let w2 = World::new(vec![b, a]);
    let (hit2, idx2) = w2.hit(&forward_ray(), 0, POINT_MAX).expect("must hit");
    assert_eq!(hit2.t, S / 2);
    assert_eq!(idx2, 1);
}

#[test]
fn world_breaks_parameter_ties_toward_later_spheres() {
    // two coincident spheres strike at the same parameter; the scan
    // keeps the later one, and the reported parameter is the same either
    // way
    let a = Sphere::new(Vec3::new(0, 0, -S), S / 2, &grey());
    let w = World::new(vec![a, a]);
    let (hit, idx) = w.hit(&forward_ray(), 0, POINT_MAX).expect("must hit");
    assert_eq!(hit.t, S / 2);
    assert_eq!(idx, 1);
}

#[test]
fn world_miss_is_none() {
    let a = Sphere::new(Vec3::new(0, 0, -S), S / 2, &grey());
    let up_ray = Ray::new(Vec3::new(0, 0, 0), Vec3::new(0, S, 0).unit_vector());
    let w = World::new(vec![a]);
    assert!(w.hit(&up_ray, 0, POINT_MAX).is_none());
}

#[test]
fn empty_world_never_hits() {
    let w = World::new(vec![]);
    assert!(w.hit(&forward_ray(), 0, POINT_MAX).is_none());
}
