use rand::rngs::SmallRng;
use rand::SeedableRng;
use raytracelib::fixed::FX_ONE;
use raytracelib::hittable::{Face, Hit};
use raytracelib::material::{Dielectric, Diffuse, Light, Material, Metal, ScatterResult};
use raytracelib::vec3::{Color, Ray, UnitVec3, Vec3};

const S: i64 = FX_ONE;

fn rng() -> SmallRng {
    SmallRng::seed_from_u64(42)
}

fn hit_at_origin(normal: Vec3, face: Face) -> Hit {
    Hit { point: Vec3::new(0, 0, 0), normal: UnitVec3(normal), t: S, face }
}

fn forward_ray() -> Ray {
    Ray::new(Vec3::new(0, 0, S), Vec3::new(0, 0, -S).unit_vector())
}

#[test]
fn light_always_emits_its_color() {
    let light = Light { color: Color { x: S, y: 2 * S, z: 3 * S } };
    let hit = hit_at_origin(Vec3::new(0, 0, S), Face::Front);
    let mut r = rng();
    for _ in 0..16 {
        let result = light.scatter(&mut r, &forward_ray(), &hit);
        assert_eq!(result, ScatterResult::Emit(Color { x: S, y: 2 * S, z: 3 * S }));
    }
    let material = Material::Light(light);
    let result = material.scatter(&mut r, &forward_ray(), &hit);
    assert_eq!(result, ScatterResult::Emit(Color { x: S, y: 2 * S, z: 3 * S }));
}

#[test]
fn diffuse_scatter_tints_with_albedo() {
    let diffuse = Diffuse { albedo: Color { x: S / 4, y: S / 2, z: S } };
    let hit = hit_at_origin(Vec3::new(0, 0, S), Face::Front);
    let bounce = Vec3::new(0, 0, S).unit_vector();
    match diffuse.scatter_with(&forward_ray(), &hit, bounce) {
        ScatterResult::Reflect(att, out) => {
            assert_eq!(att, Color { x: S / 4, y: S / 2, z: S });
            assert_eq!(out.origin, Vec3::new(0, 0, 0));
            // normal plus an equal bounce points straight up
            assert_eq!(out.direction.as_vec3(), Vec3::new(0, 0, S));
        },
        other => panic!("expected Reflect, got {:?}", other),
    }
}

#[test]
fn diffuse_degenerate_bounce_falls_back_to_normal() {
    let diffuse = Diffuse { albedo: Color { x: S, y: S, z: S } };
    let hit = hit_at_origin(Vec3::new(0, 0, S), Face::Front);
    let bounce = UnitVec3(Vec3::new(0, 0, -S));
    match diffuse.scatter_with(&forward_ray(), &hit, bounce) {
        ScatterResult::Reflect(_, out) => {
            assert_eq!(out.direction.as_vec3(), Vec3::new(0, 0, S));
        },
        other => panic!("expected Reflect, got {:?}", other),
    }
}

#[test]
fn metal_mirror_reflects_exactly() {
    let metal = Metal { albedo: Color { x: S / 2, y: S / 2, z: S / 2 }, fuzz: 0 };
    let d = Vec3::new(S, 0, -S).unit_vector();
    let ray_in = Ray::new(Vec3::new(-S, 0, S), d);
    let hit = hit_at_origin(Vec3::new(0, 0, S), Face::Front);
    let sample = Vec3::new(12345, -321, 777);
    match metal.scatter_with(&ray_in, &hit, sample) {
        ScatterResult::Reflect(att, out) => {
            assert_eq!(att, Color { x: S / 2, y: S / 2, z: S / 2 });
            assert_eq!(out.origin, Vec3::new(0, 0, 0));
            // with zero fuzz the sample is ignored: a pure mirror bounce
            let expected = d.reflect(UnitVec3(Vec3::new(0, 0, S))).unit_vector();
            assert_eq!(out.direction, expected);
            assert!(out.direction.as_vec3().z > 0);
        },
        other => panic!("expected Reflect, got {:?}", other),
    }
}

#[test]
fn dielectric_beyond_critical_angle_always_reflects() {
    // leaving glass at 45 degrees: the critical angle is exceeded, so
    // every draw reflects
    let glass = Dielectric { refractive_index: 1593835 };
    let d = Vec3::new(S, 0, -S).unit_vector();
    let ray_in = Ray::new(Vec3::new(-S, 0, S), d);
    let hit = hit_at_origin(Vec3::new(0, 0, S), Face::Back);
    let expected = d.reflect(UnitVec3(Vec3::new(0, 0, S))).unit_vector();
    for draw in [0, 1, 123456, S / 2, S - 1] {
        match glass.scatter_with(&ray_in, &hit, draw) {
            ScatterResult::Reflect(att, out) => {
                assert_eq!(att, Color { x: S, y: S, z: S });
                assert_eq!(out.direction, expected);
            },
            other => panic!("expected Reflect, got {:?}", other),
        }
    }
}

#[test]
fn dielectric_head_on_refracts_straight_through() {
    let glass = Dielectric { refractive_index: 1593835 };
    let d = Vec3::new(0, 0, -S).unit_vector();
    let ray_in = Ray::new(Vec3::new(0, 0, S), d);
    let hit = hit_at_origin(Vec3::new(0, 0, S), Face::Front);
    // head-on reflectance is r0 squared, about 4 percent: a large draw
    // refracts
    match glass.scatter_with(&ray_in, &hit, S - 1) {
        ScatterResult::Reflect(att, out) => {
            assert_eq!(att, Color { x: S, y: S, z: S });
            assert_eq!(out.direction.as_vec3(), Vec3::new(0, 0, -S));
        },
        other => panic!("expected Reflect, got {:?}", other),
    }
}

#[test]
fn schlick_reflectance_values() {
    let glass = Dielectric { refractive_index: 1593835 };
    // head-on: only the r0 term remains
    assert_eq!(glass.reflectance(S), 44648);
    // grazing incidence gives a much larger reflectance than head-on
    assert!(glass.reflectance(S / 8) > glass.reflectance(S));
}

#[test]
fn material_dispatch_matches_variants() {
    let mut r = rng();
    let hit = hit_at_origin(Vec3::new(0, 0, S), Face::Front);
    let light = Material::Light(Light { color: Color { x: 7, y: 8, z: 9 } });
    assert_eq!(
        light.scatter(&mut r, &forward_ray(), &hit),
        ScatterResult::Emit(Color { x: 7, y: 8, z: 9 })
    );
    let diffuse = Material::Diffuse(Diffuse { albedo: Color { x: S / 3, y: S / 3, z: S / 3 } });
    match diffuse.scatter(&mut r, &forward_ray(), &hit) {
        ScatterResult::Reflect(att, out) => {
            assert_eq!(att, Color { x: S / 3, y: S / 3, z: S / 3 });
            assert_eq!(out.origin, Vec3::new(0, 0, 0));
        },
        other => panic!("expected Reflect, got {:?}", other),
    }
}
