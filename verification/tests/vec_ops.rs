use raytracelib::fixed::FX_ONE;
use raytracelib::vec3::{CrossProduct, Ray, UnitVec3, Vec3};

const S: i64 = FX_ONE;

#[test]
fn componentwise_ops() {
    let a = Vec3::new(S, 2 * S, 3 * S);
    let b = Vec3::new(4 * S, 5 * S, 6 * S);
    assert_eq!(a.plus(b), Vec3::new(5 * S, 7 * S, 9 * S));
    assert_eq!(b.minus(a), Vec3::new(3 * S, 3 * S, 3 * S));
    assert_eq!(a.neg(), Vec3::new(-S, -2 * S, -3 * S));
    assert_eq!(a.scale(2 * S), Vec3::new(2 * S, 4 * S, 6 * S));
    assert_eq!(a.div_fx(2 * S), Vec3::new(S / 2, S, 3 * S / 2));
    assert_eq!(a.mul_each(b), Vec3::new(4 * S, 10 * S, 18 * S));
}

#[test]
fn dot_and_length() {
    let a = Vec3::new(S, 2 * S, 3 * S);
    let b = Vec3::new(4 * S, 5 * S, 6 * S);
    assert_eq!(a.dot(b), 32 * S);
    let c = Vec3::new(3 * S, 4 * S, 0);
    assert_eq!(c.length_squared(), 25 * S);
    assert_eq!(c.length(), 5 * S);
}

#[test]
fn cross_product_of_axes() {
    let x = Vec3::new(S, 0, 0);
    let y = Vec3::new(0, S, 0);
    assert_eq!(x.cross(y), Vec3::new(0, 0, S));
    assert_eq!(y.cross(x), Vec3::new(0, 0, -S));
}

#[test]
fn unit_vector_exact_values() {
    let u = Vec3::new(3 * S, 4 * S, 0).unit_vector();
    assert_eq!(u.as_vec3(), Vec3::new(629145, 838860, 0));
    let v = Vec3::new(0, 0, -S).unit_vector();
    assert_eq!(v.as_vec3(), Vec3::new(0, 0, -S));
    let w = Vec3::new(S, 0, -S).unit_vector();
    assert_eq!(w.as_vec3(), Vec3::new(741455, 0, -741455));
}

#[test]
fn near_zero_is_exact_zero_on_grid() {
    assert!(Vec3::new(0, 0, 0).near_zero());
    assert!(!Vec3::new(1, 0, 0).near_zero());
    assert!(!Vec3::new(0, -1, 0).near_zero());
}

#[test]
fn unit_vector_length_is_one() {
    // the length of every normalised vector stays within 4 steps of one,
    // even for inputs far below one grid unit
    let cases = [
        (3 * S, 4 * S, 0),
        (7, -3, 2),
        (1, 1, 1),
        (-5 * S, 2 * S, 9 * S),
        (123456789, -987654321, 555555555),
    ];
    for (x, y, z) in cases {
        let u = Vec3::new(x, y, z).unit_vector();
        let len = u.as_vec3().length();
        assert!((len - S).abs() <= 4, "length {} for ({}, {}, {})", len, x, y, z);
    }
}

#[test]
fn reflect_keeps_unit_length() {
    let d = Vec3::new(S, 2 * S, -3 * S).unit_vector();
    let n = Vec3::new(0, 0, S).unit_vector();
    let r = d.reflect(n);
    let len = r.length();
    assert!((len - S).abs() <= 214, "length {}", len);
    // mirror reflection across the z axis flips only the z component
    assert_eq!(r.x, d.as_vec3().x);
    assert_eq!(r.y, d.as_vec3().y);
}

#[test]
fn ray_at_walks_the_direction() {
    let ray = Ray::new(Vec3::new(0, 0, 0), Vec3::new(0, 0, -S).unit_vector());
    assert_eq!(ray.at(S / 2), Vec3::new(0, 0, -S / 2));
    assert_eq!(ray.at(0), Vec3::new(0, 0, 0));
}

#[test]
fn cos_and_sin_theta() {
    let d = Vec3::new(S, 0, -S).unit_vector();
    let n = Vec3::new(0, 0, S).unit_vector();
    assert_eq!(d.cos_theta(n), -741455);
    // sin of the 45 degree angle, up to grid rounding
    let sin = d.sin_theta(n);
    assert!((sin - 741455).abs() <= 2, "sin {}", sin);
    let up = UnitVec3(Vec3::new(0, 0, S));
    assert_eq!(up.cos_theta(up), S);
    assert_eq!(up.sin_theta(up), 0);
}
