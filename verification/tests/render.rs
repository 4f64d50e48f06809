use rand::rngs::SmallRng;
use rand::SeedableRng;
use raytracelib::camera::Camera;
use raytracelib::fixed::FX_ONE;
use raytracelib::material::{Diffuse, Light, Material};
use raytracelib::tracer::{background, clamp, gamma_sqrt, ray_color, render_line, to_8bit_color};
use raytracelib::vec3::{Color, Ray, Vec3};
use raytracelib::world::{Sphere, World};

const S: i64 = FX_ONE;

fn grey(level: i64) -> Material {
    Material::Diffuse(Diffuse { albedo: Color { x: level, y: level, z: level } })
}

fn small_scene() -> World {
    World::new(vec![
        // a half-unit diffuse sphere one unit down the axis
        Sphere::new(Vec3::new(0, 0, -S), S / 2, &grey(S / 2)),
        // a large diffuse ground sphere far below
        Sphere::new(Vec3::new(0, -101 * S, -S), 100 * S, &grey(4 * S / 5)),
    ])
}

fn forward_ray() -> Ray {
    Ray::new(Vec3::new(0, 0, 0), Vec3::new(0, 0, -S).unit_vector())
}

fn up_ray() -> Ray {
    Ray::new(Vec3::new(0, 0, 0), Vec3::new(0, S, 0).unit_vector())
}

#[test]
fn ray_color_depth_zero_is_black() {
    let mut rng = SmallRng::seed_from_u64(1);
    let world = small_scene();
    assert_eq!(ray_color(&mut rng, &forward_ray(), &world, 0), Color { x: 0, y: 0, z: 0 });
    assert_eq!(ray_color(&mut rng, &up_ray(), &world, 0), Color { x: 0, y: 0, z: 0 });
    assert_eq!(ray_color(&mut rng, &up_ray(), &World::new(vec![]), 0), Color { x: 0, y: 0, z: 0 });
}

#[test]
fn ray_color_miss_is_background() {
    let mut rng = SmallRng::seed_from_u64(1);
    let world = small_scene();
    assert_eq!(ray_color(&mut rng, &up_ray(), &world, 8), background());
    assert_eq!(ray_color(&mut rng, &up_ray(), &World::new(vec![]), 8), background());
}

#[test]
fn ray_color_light_returns_radiance() {
    let mut rng = SmallRng::seed_from_u64(1);
    let lamp = Material::Light(Light { color: Color { x: 40 * S, y: 40 * S, z: 40 * S } });
    let world = World::new(vec![Sphere::new(Vec3::new(0, 0, -S), S / 2, &lamp)]);
    assert_eq!(
        ray_color(&mut rng, &forward_ray(), &world, 8),
        Color { x: 40 * S, y: 40 * S, z: 40 * S }
    );
}

fn test_camera() -> Camera {
    Camera::new(
        Vec3::new(0, 0, S),
        Vec3::new(0, 0, -S),
        Vec3::new(0, S, 0),
        S / 2,
        S,
        0,
        2 * S,
    )
}

#[test]
fn camera_without_aperture_keeps_its_origin() {
    let camera = test_camera();
    let ray = camera.ray_through(S / 2, S / 2, Vec3::new(0, 0, 0));
    assert_eq!(ray.origin, Vec3::new(0, 0, S));
    // the centre of the viewport looks straight down the axis
    let len = ray.direction.as_vec3().length();
    assert!((len - S).abs() <= 4);
    assert!(ray.direction.as_vec3().z < 0);
}

#[test]
fn camera_corner_ray_is_exact() {
    // with no aperture the lower-left corner ray is fully determined
    let camera = test_camera();
    let ray = camera.ray_through(0, 0, Vec3::new(0, 0, 0));
    assert_eq!(ray.origin, Vec3::new(0, 0, S));
    assert_eq!(ray.direction.as_vec3(), Vec3::new(-428079, -428079, -856158));
}

#[test]
fn render_is_deterministic_per_seed() {
    let world = small_scene();
    let camera = test_camera();
    let mut rng1 = SmallRng::seed_from_u64(7);
    let row1 = render_line(&mut rng1, &camera, &world, 4, 8, 8, 1, 1);
    let mut rng2 = SmallRng::seed_from_u64(7);
    let row2 = render_line(&mut rng2, &camera, &world, 4, 8, 8, 1, 1);
    assert_eq!(row1.len(), 8);
    assert_eq!(row1, row2);
    // a different seed is allowed to differ, and a rendered row always
    // stays within the radiance bound
    for pixel in &row1 {
        assert!(pixel.x >= 0 && pixel.y >= 0 && pixel.z >= 0);
    }
}

#[test]
fn render_empty_scene_is_all_background() {
    let world = World::new(vec![]);
    let camera = test_camera();
    let mut rng = SmallRng::seed_from_u64(11);
    let row = render_line(&mut rng, &camera, &world, 2, 4, 4, 3, 5);
    assert_eq!(row.len(), 4);
    for pixel in &row {
        assert_eq!(*pixel, background());
    }
}

#[test]
fn ray_color_one_bounce_is_truncated_to_black() {
    // with a depth budget of one, a diffuse hit tints the exhausted
    // recursive estimate, which is black
    let mut rng = SmallRng::seed_from_u64(5);
    let world = World::new(vec![Sphere::new(Vec3::new(0, 0, -S), S / 2, &grey(S / 2))]);
    assert_eq!(ray_color(&mut rng, &forward_ray(), &world, 1), Color { x: 0, y: 0, z: 0 });
}

#[test]
fn clamp_and_quantise() {
    assert_eq!(clamp(5, 0, 10), 5);
    assert_eq!(clamp(-5, 0, 10), 0);
    assert_eq!(clamp(15, 0, 10), 10);
    assert_eq!(to_8bit_color(0), 0);
    assert_eq!(to_8bit_color(-S), 0);
    assert_eq!(to_8bit_color(S / 2), 128);
    assert_eq!(to_8bit_color(S), 255);
    assert_eq!(to_8bit_color(40 * S), 255);
}

#[test]
fn gamma_is_square_root() {
    assert_eq!(gamma_sqrt(0), 0);
    assert_eq!(gamma_sqrt(S), S);
    assert_eq!(gamma_sqrt(S / 4), S / 2);
    assert_eq!(gamma_sqrt(4 * S), 2 * S);
}

#[test]
fn random_draws_stay_in_range() {
    let mut rng = SmallRng::seed_from_u64(3);
    // a one-wide range pins the draw: this fails if the boundary were
    // not respected
    assert_eq!(raytracelib::random::random_fx_range(&mut rng, 42, 43), 42);
    for _ in 0..64 {
        let v = raytracelib::random::random_vec3_range(&mut rng, -7, 9);
        assert!(v.x >= -7 && v.x < 9 && v.y >= -7 && v.y < 9 && v.z >= -7 && v.z < 9);
        let p = raytracelib::random::random_in_unit_sphere(&mut rng);
        assert!(p.length_squared() <= S);
        assert!(!p.near_zero());
        let u = raytracelib::random::random_unit_vector(&mut rng);
        let len = u.as_vec3().length();
        assert!((len - S).abs() <= 4);
        let d = raytracelib::random::random_in_unit_disk(&mut rng);
        assert_eq!(d.z, 0);
        assert!(d.length_squared() <= S);
    }
}
