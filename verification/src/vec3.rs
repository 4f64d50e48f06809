//! Vectors, unit vectors and rays over fixed-point scalars.

use crate::fixed::{
    fdiv, fmul, fx_div, fx_mul, is_sqrt, isqrt_u128, lemma_sqrt, lemma_sqrt_unique,
    lemma_tdiv_in_range, sqrt_i, tdiv, tdiv_i128, FX_ONE,
};
use vstd::arithmetic::div_mod::lemma_div_by_multiple;
use vstd::prelude::*;

verus! {

/// Bound on scene coordinates and radii.
pub const COORD_MAX: i64 = 68719476736;

/// Bound on ray origins and hit points.
pub const POINT_MAX: i64 = 274877906944;

/// Bound on the components of any vector fed to `dot`, `length` or
/// `unit_vector`.
pub const VEC_MAX: i64 = 2199023255552;

#[derive(Clone, Copy, Debug, PartialEq, Eq, Structural)]
pub struct Vec3 {
    pub x: i64,
    pub y: i64,
    pub z: i64,
}

pub type Color = Vec3;

pub type Point3 = Vec3;

/// All three components lie in `[-b, b]`.
pub open spec fn in_range(v: Vec3, b: int) -> bool {
    &&& -b <= v.x <= b
    &&& -b <= v.y <= b
    &&& -b <= v.z <= b
}

/// The unscaled inner product: `FX_ONE * FX_ONE` times the real inner
/// product of the two vectors.
pub open spec fn dot_n(a: Vec3, b: Vec3) -> int {
    a.x * b.x + a.y * b.y + a.z * b.z
}

/// The unscaled squared length.
pub open spec fn norm2_n(v: Vec3) -> int {
    dot_n(v, v)
}

/// Bounds on two vectors bound their inner product.
pub proof fn lemma_dot_bound(a: Vec3, b: Vec3, ca: int, cb: int)
    requires
        0 <= ca,
        0 <= cb,
        in_range(a, ca),
        in_range(b, cb),
    ensures
        -(3 * (ca * cb)) <= dot_n(a, b) <= 3 * (ca * cb),
        -((3 * (ca * cb)) / FX_ONE as int) <= tdiv(dot_n(a, b), FX_ONE as int) <= (3 * (ca
            * cb)) / FX_ONE as int,
{
    assert(-(ca * cb) <= a.x * b.x <= ca * cb) by (nonlinear_arith)
        requires
            0 <= ca && 0 <= cb && -ca <= a.x <= ca && -cb <= b.x <= cb,
    ;
    assert(-(ca * cb) <= a.y * b.y <= ca * cb) by (nonlinear_arith)
        requires
            0 <= ca && 0 <= cb && -ca <= a.y <= ca && -cb <= b.y <= cb,
    ;
    assert(-(ca * cb) <= a.z * b.z <= ca * cb) by (nonlinear_arith)
        requires
            0 <= ca && 0 <= cb && -ca <= a.z <= ca && -cb <= b.z <= cb,
    ;
    assert(ca * cb >= 0) by (nonlinear_arith)
        requires
            0 <= ca && 0 <= cb,
    ;
    lemma_tdiv_in_range(dot_n(a, b), FX_ONE as int, 3 * (ca * cb));
}

/// A squared component never exceeds the unscaled squared length.
proof fn lemma_comp_sq_le_norm2(v: Vec3)
    ensures
        0 <= v.x * v.x <= norm2_n(v),
        0 <= v.y * v.y <= norm2_n(v),
        0 <= v.z * v.z <= norm2_n(v),
        norm2_n(v) >= 0,
{
    assert(v.x * v.x >= 0 && v.y * v.y >= 0 && v.z * v.z >= 0) by (nonlinear_arith);
}

/// Bounds on a vector bound its unscaled squared length.
pub proof fn lemma_norm2_bound(v: Vec3, c: int)
    requires
        0 <= c,
        in_range(v, c),
    ensures
        0 <= norm2_n(v) <= 3 * (c * c),
{
    lemma_dot_bound(v, v, c, c);
    lemma_comp_sq_le_norm2(v);
}

/// The power-of-two scale factor used before normalising: the smallest
/// power of two `p` with `n * p * p >= t`, found by quartering `t`.
pub open spec fn scale_pow(n: int, t: int) -> int
    decreases t,
{
    if t <= n || t < 4 {
        1
    } else {
        2 * scale_pow(n, t / 4)
    }
}

/// The normalised image of `(x, y, z)`: each component is scaled to
/// `FX_ONE` times its share of the vector's length.  The scale factor `p`
/// keeps the integer square root's relative error small for short vectors.
pub open spec fn normalize_s(x: int, y: int, z: int) -> (int, int, int) {
    let n = x * x + y * y + z * z;
    let p = scale_pow(n, FX_ONE * FX_ONE);
    let l = sqrt_i(n * p * p);
    (tdiv(x * p * FX_ONE, l), tdiv(y * p * FX_ONE, l), tdiv(z * p * FX_ONE, l))
}

impl Vec3 {
    pub fn new(x: i64, y: i64, z: i64) -> (r: Self)
        ensures
            r == (Vec3 { x, y, z }),
    {
        Vec3 { x, y, z }
    }

    /// Componentwise sum.
    pub fn plus(self, rhs: Vec3) -> (r: Vec3)
        requires
            i64::MIN <= self.x + rhs.x <= i64::MAX,
            i64::MIN <= self.y + rhs.y <= i64::MAX,
            i64::MIN <= self.z + rhs.z <= i64::MAX,
        ensures
            r.x == self.x + rhs.x,
            r.y == self.y + rhs.y,
            r.z == self.z + rhs.z,
    {
        Vec3 { x: self.x + rhs.x, y: self.y + rhs.y, z: self.z + rhs.z }
    }

    /// Componentwise difference.
    pub fn minus(self, rhs: Vec3) -> (r: Vec3)
        requires
            i64::MIN <= self.x - rhs.x <= i64::MAX,
            i64::MIN <= self.y - rhs.y <= i64::MAX,
            i64::MIN <= self.z - rhs.z <= i64::MAX,
        ensures
            r.x == self.x - rhs.x,
            r.y == self.y - rhs.y,
            r.z == self.z - rhs.z,
    {
        Vec3 { x: self.x - rhs.x, y: self.y - rhs.y, z: self.z - rhs.z }
    }

    /// Componentwise negation.
    pub fn neg(self) -> (r: Vec3)
        requires
            self.x > i64::MIN,
            self.y > i64::MIN,
            self.z > i64::MIN,
        ensures
            r.x == -self.x,
            r.y == -self.y,
            r.z == -self.z,
    {
        Vec3 { x: -self.x, y: -self.y, z: -self.z }
    }

    /// Multiplication by a fixed-point scalar.
    pub fn scale(self, k: i64) -> (r: Vec3)
        requires
            -i64::MAX <= fmul(self.x as int, k as int) <= i64::MAX,
            -i64::MAX <= fmul(self.y as int, k as int) <= i64::MAX,
            -i64::MAX <= fmul(self.z as int, k as int) <= i64::MAX,
        ensures
            r.x == fmul(self.x as int, k as int),
            r.y == fmul(self.y as int, k as int),
            r.z == fmul(self.z as int, k as int),
    {
        Vec3 { x: fx_mul(self.x, k), y: fx_mul(self.y, k), z: fx_mul(self.z, k) }
    }

    /// Division by a positive fixed-point scalar.
    pub fn div_fx(self, d: i64) -> (r: Vec3)
        requires
            d > 0,
            -i64::MAX <= fdiv(self.x as int, d as int) <= i64::MAX,
            -i64::MAX <= fdiv(self.y as int, d as int) <= i64::MAX,
            -i64::MAX <= fdiv(self.z as int, d as int) <= i64::MAX,
        ensures
            r.x == fdiv(self.x as int, d as int),
            r.y == fdiv(self.y as int, d as int),
            r.z == fdiv(self.z as int, d as int),
    {
        Vec3 { x: fx_div(self.x, d), y: fx_div(self.y, d), z: fx_div(self.z, d) }
    }

    /// Componentwise product, used for albedo tinting.
    pub fn mul_each(self, rhs: Vec3) -> (r: Vec3)
        requires
            -i64::MAX <= fmul(self.x as int, rhs.x as int) <= i64::MAX,
            -i64::MAX <= fmul(self.y as int, rhs.y as int) <= i64::MAX,
            -i64::MAX <= fmul(self.z as int, rhs.z as int) <= i64::MAX,
        ensures
            r.x == fmul(self.x as int, rhs.x as int),
            r.y == fmul(self.y as int, rhs.y as int),
            r.z == fmul(self.z as int, rhs.z as int),
    {
        Vec3 {
            x: fx_mul(self.x, rhs.x),
            y: fx_mul(self.y, rhs.y),
            z: fx_mul(self.z, rhs.z),
        }
    }

    /// Fixed-point inner product.
    pub fn dot(self, rhs: Vec3) -> (r: i64)
        requires
            in_range(self, VEC_MAX as int),
            in_range(rhs, VEC_MAX as int),
            -i64::MAX <= tdiv(dot_n(self, rhs), FX_ONE as int) <= i64::MAX,
        ensures
            r == tdiv(dot_n(self, rhs), FX_ONE as int),
    {
        proof {
            let vm = VEC_MAX as int;
            assert(-(vm * vm) <= self.x as int * rhs.x as int <= vm * vm) by (nonlinear_arith)
                requires
                    -vm <= self.x <= vm && -vm <= rhs.x <= vm,
            ;
            assert(-(vm * vm) <= self.y as int * rhs.y as int <= vm * vm) by (nonlinear_arith)
                requires
                    -vm <= self.y <= vm && -vm <= rhs.y <= vm,
            ;
            assert(-(vm * vm) <= self.z as int * rhs.z as int <= vm * vm) by (nonlinear_arith)
                requires
                    -vm <= self.z <= vm && -vm <= rhs.z <= vm,
            ;
        }
        let p: i128 = (self.x as i128) * (rhs.x as i128) + (self.y as i128) * (rhs.y as i128) + (
        self.z as i128) * (rhs.z as i128);
        let q = tdiv_i128(p, FX_ONE as i128);
        q as i64
    }

    /// Fixed-point squared length.
    pub fn length_squared(self) -> (r: i64)
        requires
            in_range(self, VEC_MAX as int),
            tdiv(norm2_n(self), FX_ONE as int) <= i64::MAX,
        ensures
            r == tdiv(norm2_n(self), FX_ONE as int),
            r >= 0,
    {
        proof {
            lemma_comp_sq_le_norm2(self);
            lemma_tdiv_in_range(norm2_n(self), FX_ONE as int, norm2_n(self));
        }
        self.dot(self)
    }

    /// Fixed-point length: the integer square root of the unscaled squared
    /// length, which is `FX_ONE` times the real length.
    pub fn length(self) -> (r: i64)
        requires
            in_range(self, VEC_MAX as int),
        ensures
            r == sqrt_i(norm2_n(self)),
            r >= 0,
    {
        proof {
            lemma_comp_sq_le_norm2(self);
            lemma_norm2_bound(self, VEC_MAX as int);
        }
        let p: i128 = (self.x as i128) * (self.x as i128) + (self.y as i128) * (self.y as i128) + (
        self.z as i128) * (self.z as i128);
        let l = isqrt_u128(p as u128);
        proof {
            assert(l as int <= i64::MAX) by (nonlinear_arith)
                requires
                    is_sqrt(norm2_n(self), l as int),
                    norm2_n(self) <= 3 * (VEC_MAX as int * VEC_MAX as int),
            ;
            lemma_sqrt(norm2_n(self));
            lemma_sqrt_unique(norm2_n(self), l as int, sqrt_i(norm2_n(self)));
        }
        l as i64
    }

    /// True exactly when all components lie in `[-b, b]`.
    pub fn bounded(self, b: i64) -> (r: bool)
        requires
            b >= 0,
        ensures
            r == in_range(self, b as int),
    {
        -b <= self.x && self.x <= b && -b <= self.y && self.y <= b && -b <= self.z && self.z <= b
    }

    /// True exactly when the vector is the origin: any displacement below
    /// one fixed-point step is already zero on this grid.
    pub fn near_zero(&self) -> (r: bool)
        ensures
            r == (self.x == 0 && self.y == 0 && self.z == 0),
    {
        self.x == 0 && self.y == 0 && self.z == 0
    }

    /// Normalise to a unit vector; the argument must not be the zero
    /// vector.
    pub fn unit_vector(self) -> (r: UnitVec3)
        requires
            in_range(self, VEC_MAX as int),
            !(self.x == 0 && self.y == 0 && self.z == 0),
        ensures
            r.wf(),
            (r.0.x as int, r.0.y as int, r.0.z as int) == normalize_s(
                self.x as int,
                self.y as int,
                self.z as int,
            ),
    {
        proof {
            crate::laws::lemma_unit_vector_length(self.x as int, self.y as int, self.z as int);
            lemma_comp_sq_le_norm2(self);
            lemma_norm2_bound(self, VEC_MAX as int);
            assert(self.x != 0 ==> self.x * self.x >= 1) by (nonlinear_arith);
            assert(self.y != 0 ==> self.y * self.y >= 1) by (nonlinear_arith);
            assert(self.z != 0 ==> self.z * self.z >= 1) by (nonlinear_arith);
        }
        let xi = self.x as i128;
        let yi = self.y as i128;
        let zi = self.z as i128;
        let n128: i128 = xi * xi + yi * yi + zi * zi;
        let n: u128 = n128 as u128;
        let mut t: u128 = 1099511627776;
        let mut p: u128 = 1;
        let ghost mut k: nat = 0;
        proof {
            vstd::arithmetic::power2::lemma2_to64();
            vstd::arithmetic::power2::lemma2_to64_rest();
        }
        while t > n
            invariant
                1 <= n,
                n == norm2_n(self),
                n <= 3 * (VEC_MAX as int * VEC_MAX as int),
                k <= 20,
                p == vstd::arithmetic::power2::pow2(k),
                t == vstd::arithmetic::power2::pow2((40 - 2 * k) as nat),
                1 <= p <= 1048576,
                1 <= t,
                t * (p * p) == 1099511627776,
                p == 1 || n < 4 * t,
                scale_pow(n as int, 1099511627776int) == p * scale_pow(n as int, t as int),
            decreases t,
        {
            proof {
                vstd::arithmetic::power2::lemma2_to64();
            vstd::arithmetic::power2::lemma2_to64_rest();
                let e: nat = (40 - 2 * k) as nat;
                assert(t >= 2);
                if e < 2 {
                    vstd::arithmetic::power2::lemma_pow2_strictly_increases(e, 2);
                    assert(t < 4);
                    assert(e == 1 ==> t == 2);
                    assert(e == 0 ==> t == 1);
                    assert(2 * k != 39);
                    assert(false);
                }
                vstd::arithmetic::power2::lemma_pow2_adds((e - 2) as nat, 2);
                assert(t == vstd::arithmetic::power2::pow2((e - 2) as nat) * 4);
                lemma_div_by_multiple(vstd::arithmetic::power2::pow2((e - 2) as nat) as int, 4);
                assert(t / 4 == vstd::arithmetic::power2::pow2((e - 2) as nat));
                vstd::arithmetic::power2::lemma_pow2_adds(k, 1);
                assert(scale_pow(n as int, t as int) == 2 * scale_pow(n as int, t as int / 4));
                assert((t / 4) * ((2 * p) * (2 * p)) == t * (p * p)) by (nonlinear_arith)
                    requires
                        t == 4 * (t / 4),
                ;
                assert(p * (2 * scale_pow(n as int, t as int / 4)) == (2 * p) * scale_pow(
                    n as int,
                    t as int / 4,
                )) by (nonlinear_arith);
                if k + 1 > 20 {
                    assert(k == 20);
                    assert(e == 0);
                    assert(false);
                }
                if k + 1 < 20 {
                    vstd::arithmetic::power2::lemma_pow2_strictly_increases(k + 1, 20);
                }
            }
            t = t / 4;
            p = p * 2;
            proof {
                k = k + 1;
            }
        }
        proof {
            assert(p * p <= 1099511627776) by (nonlinear_arith)
                requires
                    1 <= p <= 1048576,
            ;
            assert(n * (p * p) <= 3 * (VEC_MAX as int * VEC_MAX as int) + 4398046511104)
                by (nonlinear_arith)
                requires
                    t * (p * p) == 1099511627776,
                    t >= 1,
                    p >= 1,
                    n >= 1,
                    p == 1 || n < 4 * t,
                    n <= 3 * (VEC_MAX as int * VEC_MAX as int),
            ;
            assert(n * (p * p) >= 1) by (nonlinear_arith)
                requires
                    n >= 1,
                    p >= 1,
            ;
        }
        let m: u128 = n * (p * p);
        let l64 = isqrt_u128(m);
        let l: i128 = l64 as i128;
        proof {
            assert(l >= 1) by (nonlinear_arith)
                requires
                    is_sqrt(m as int, l as int),
                    m >= 1,
            ;
            lemma_comp_sq_le_norm2(self);
        }
        let ghost mg: int = m as int;
        proof {
            assert(self.x as int * self.x as int * (p as int * p as int) <= mg) by (nonlinear_arith)
                requires
                    self.x as int * self.x as int <= n,
                    mg == n * (p as int * p as int),
                    p >= 1,
            ;
            assert(self.y as int * self.y as int * (p as int * p as int) <= mg) by (nonlinear_arith)
                requires
                    self.y as int * self.y as int <= n,
                    mg == n * (p as int * p as int),
                    p >= 1,
            ;
            assert(self.z as int * self.z as int * (p as int * p as int) <= mg) by (nonlinear_arith)
                requires
                    self.z as int * self.z as int <= n,
                    mg == n * (p as int * p as int),
                    p >= 1,
            ;
        }
        let ux = normalize_comp(self.x, p as i128, l, Ghost(mg));
        let uy = normalize_comp(self.y, p as i128, l, Ghost(mg));
        let uz = normalize_comp(self.z, p as i128, l, Ghost(mg));
        proof {
            let ni = norm2_n(self);
            let ps = scale_pow(ni, FX_ONE * FX_ONE);
            assert(scale_pow(ni, t as int) == 1);
            assert(ps == p);
            assert(ni * ps * ps == mg) by (nonlinear_arith)
                requires
                    mg == ni * (ps * ps),
            ;
            lemma_sqrt(ni * ps * ps);
            lemma_sqrt_unique(ni * ps * ps, l as int, sqrt_i(ni * ps * ps));
        }
        UnitVec3(Vec3 { x: ux, y: uy, z: uz })
    }
}

/// One component of a normalisation: `c * p * FX_ONE / l`, truncated.
fn normalize_comp(c: i64, p: i128, l: i128, m: Ghost<int>) -> (r: i64)
    requires
        1 <= l <= 18446744073709551615,
        1 <= p <= 1048576,
        c as int * c as int * (p as int * p as int) <= m@,
        is_sqrt(m@, l as int),
    ensures
        r == tdiv(c as int * p as int * FX_ONE, l as int),
        -FX_ONE <= r <= FX_ONE,
{
    proof {
        assert(-(i64::MAX as int * 1048576) - 1048576 <= c as int * p as int <= i64::MAX as int
            * 1048576) by (nonlinear_arith)
            requires
                i64::MIN <= c <= i64::MAX,
                1 <= p <= 1048576,
        ;
    }
    let cp: i128 = (c as i128) * p;
    proof {
        assert((cp * cp) <= m@) by (nonlinear_arith)
            requires
                cp == c as int * p as int,
                c as int * c as int * (p as int * p as int) <= m@,
        ;
        assert(-l <= cp <= l) by (nonlinear_arith)
            requires
                cp * cp <= m@,
                is_sqrt(m@, l as int),
                l >= 0,
        ;
        assert(cp * FX_ONE <= l * FX_ONE && -(l * FX_ONE) <= cp * FX_ONE) by (nonlinear_arith)
            requires
                -l <= cp <= l,
        ;
        lemma_tdiv_in_range(cp as int * FX_ONE, l as int, l as int * FX_ONE);
        lemma_div_by_multiple(FX_ONE as int, l as int);
        assert(l as int * FX_ONE == FX_ONE * l as int) by (nonlinear_arith);
        assert(cp as int * FX_ONE == c as int * p as int * FX_ONE);
    }
    let q = tdiv_i128(cp * (FX_ONE as i128), l);
    q as i64
}

/// A direction: a vector whose length is one on the fixed-point grid, up
/// to the normalisation error bounded by `lemma_unit_vector_length`.
#[derive(Clone, Copy, Debug, PartialEq, Eq, Structural)]
pub struct UnitVec3(pub Vec3);

impl UnitVec3 {
    /// A direction's components lie in `[-FX_ONE, FX_ONE]` and its
    /// squared length stays within the normalisation error of one.
    pub open spec fn wf(self) -> bool {
        &&& in_range(self.0, FX_ONE as int)
        &&& FX_ONE * FX_ONE - 6 * FX_ONE <= norm2_n(self.0) <= FX_ONE * FX_ONE + 9 * FX_ONE
    }

    /// The underlying vector.
    pub fn as_vec3(self) -> (r: Vec3)
        ensures
            r == self.0,
    {
        self.0
    }

    /// The opposite direction.
    pub fn neg(self) -> (r: UnitVec3)
        requires
            self.wf(),
        ensures
            r.wf(),
            r.0.x == -self.0.x,
            r.0.y == -self.0.y,
            r.0.z == -self.0.z,
    {
        let r = UnitVec3(self.0.neg());
        proof {
            assert(norm2_n(r.0) == norm2_n(self.0)) by (nonlinear_arith)
                requires
                    r.0.x == -self.0.x,
                    r.0.y == -self.0.y,
                    r.0.z == -self.0.z,
            ;
        }
        r
    }

    /// The cosine of the angle to another direction: the fixed-point inner
    /// product of the two unit vectors.
    pub fn cos_theta(self, rhs: UnitVec3) -> (r: i64)
        requires
            self.wf(),
            rhs.wf(),
        ensures
            r == tdiv(dot_n(self.0, rhs.0), FX_ONE as int),
            -3 * FX_ONE <= r <= 3 * FX_ONE,
    {
        proof {
            lemma_dot_bound(self.0, rhs.0, FX_ONE as int, FX_ONE as int);
        }
        self.0.dot(rhs.0)
    }

    /// The sine of the angle to another direction, from the cosine: the
    /// cosine is clamped to at most one, and a negative square is clamped
    /// to zero.
    pub fn sin_theta(self, rhs: UnitVec3) -> (r: i64)
        requires
            self.wf(),
            rhs.wf(),
        ensures
            r == sin_theta_s(self.0, rhs.0),
            0 <= r <= FX_ONE,
    {
        let c0 = self.cos_theta(rhs);
        let c = if c0 > FX_ONE {
            FX_ONE
        } else {
            c0
        };
        proof {
            crate::fixed::lemma_fmul_bound(c as int, c as int, 3 * FX_ONE as int, 3 * FX_ONE as int);
            assert(0 <= c * c <= 9 * (FX_ONE as int * FX_ONE as int)) by (nonlinear_arith)
                requires
                    -3 * FX_ONE as int <= c <= 3 * FX_ONE as int,
            ;
            lemma_tdiv_in_range(c as int * c as int, FX_ONE as int, 9 * (FX_ONE as int * FX_ONE as int));
        }
        let s2 = FX_ONE - fx_mul(c, c);
        if s2 < 0 {
            0
        } else {
            let prod: i128 = (s2 as i128) * (FX_ONE as i128);
            let r64 = isqrt_u128(prod as u128);
            proof {
                assert(r64 as int <= FX_ONE) by (nonlinear_arith)
                    requires
                        is_sqrt(s2 as int * FX_ONE as int, r64 as int),
                        s2 <= FX_ONE,
                        s2 >= 0,
                ;
            }
            r64 as i64
        }
    }

    /// Reflection across a unit normal.
    pub fn reflect(self, normal: UnitVec3) -> (r: Vec3)
        requires
            self.wf(),
            normal.wf(),
        ensures
            (r.x as int, r.y as int, r.z as int) == reflect_s(self.0, normal.0),
            in_range(r, 8 * FX_ONE as int),
            FX_ONE * FX_ONE - 425 * FX_ONE <= norm2_n(r) <= FX_ONE * FX_ONE + 425 * FX_ONE,
    {
        proof {
            crate::laws::lemma_reflect_length(self.0, normal.0);
        }
        let c = self.cos_theta(normal);
        let k = 2 * c;
        proof {
            let s = FX_ONE as int;
            crate::fixed::lemma_fmul_bound(k as int, normal.0.x as int, 6 * s, s);
            crate::fixed::lemma_fmul_bound(k as int, normal.0.y as int, 6 * s, s);
            crate::fixed::lemma_fmul_bound(k as int, normal.0.z as int, 6 * s, s);
        }
        Vec3 {
            x: self.0.x - fx_mul(k, normal.0.x),
            y: self.0.y - fx_mul(k, normal.0.y),
            z: self.0.z - fx_mul(k, normal.0.z),
        }
    }

    /// Refraction by Snell's law, given a unit normal and the ratio of
    /// refractive indices.
    pub fn refract(self, normal: UnitVec3, refraction_ratio: i64) -> (r: Vec3)
        requires
            self.wf(),
            normal.wf(),
            0 < refraction_ratio <= 4294967296,
        ensures
            (r.x as int, r.y as int, r.z as int) == refract_s(
                self.0,
                normal.0,
                refraction_ratio as int,
            ),
            in_range(r, COORD_MAX as int),
    {
        let s = FX_ONE;
        let c = self.cos_theta(normal);
        proof {
            let si = FX_ONE as int;
            crate::fixed::lemma_fmul_bound(normal.0.x as int, c as int, si, 3 * si);
            crate::fixed::lemma_fmul_bound(normal.0.y as int, c as int, si, 3 * si);
            crate::fixed::lemma_fmul_bound(normal.0.z as int, c as int, si, 3 * si);
        }
        let tv = self.0.minus(normal.0.scale(c));
        proof {
            let si = FX_ONE as int;
            crate::fixed::lemma_fmul_bound(tv.x as int, refraction_ratio as int, 4 * si, 4294967296);
            crate::fixed::lemma_fmul_bound(tv.y as int, refraction_ratio as int, 4 * si, 4294967296);
            crate::fixed::lemma_fmul_bound(tv.z as int, refraction_ratio as int, 4 * si, 4294967296);
        }
        let perp = tv.scale(refraction_ratio);
        proof {
            lemma_norm2_bound(perp, 17179869184);
            lemma_tdiv_in_range(
                norm2_n(perp),
                FX_ONE as int,
                3 * (17179869184int * 17179869184),
            );
        }
        let l2 = perp.length_squared();
        let par = s - l2;
        let a = if par < 0 {
            -par
        } else {
            par
        };
        let prod: i128 = (a as i128) * (FX_ONE as i128);
        let sq64 = isqrt_u128(prod as u128);
        proof {
            assert(sq64 as int * sq64 as int <= a as int * FX_ONE as int) by (nonlinear_arith)
                requires
                    is_sqrt(a as int * FX_ONE as int, sq64 as int),
            ;
            assert(sq64 as int <= 34359738368) by (nonlinear_arith)
                requires
                    sq64 as int * sq64 as int <= a as int * FX_ONE as int,
                    a as int * FX_ONE as int <= 34359738368 * 34359738368,
                    sq64 >= 0,
            ;
        }
        let sq = sq64 as i64;
        proof {
            let si = FX_ONE as int;
            crate::fixed::lemma_fmul_bound(normal.0.x as int, sq as int, si, 34359738368);
            crate::fixed::lemma_fmul_bound(normal.0.y as int, sq as int, si, 34359738368);
            crate::fixed::lemma_fmul_bound(normal.0.z as int, sq as int, si, 34359738368);
        }
        perp.minus(normal.0.scale(sq))
    }
}

/// The components of a direction, as unbounded integers.
pub open spec fn unit_comps(u: UnitVec3) -> (int, int, int) {
    (u.0.x as int, u.0.y as int, u.0.z as int)
}

/// A candidate direction, normalised; the zero vector falls back to the
/// given unit vector.
pub open spec fn guarded_unit_s(v: (int, int, int), fallback: UnitVec3) -> (int, int, int) {
    if v == (0int, 0int, 0int) {
        unit_comps(fallback)
    } else {
        normalize_s(v.0, v.1, v.2)
    }
}

/// The sine of the angle between two directions, as `sin_theta` computes
/// it.
pub open spec fn sin_theta_s(d: Vec3, n: Vec3) -> int {
    let c0 = tdiv(dot_n(d, n), FX_ONE as int);
    let c = if c0 > FX_ONE {
        FX_ONE as int
    } else {
        c0
    };
    let s2 = FX_ONE - fmul(c, c);
    if s2 < 0 {
        0
    } else {
        sqrt_i(s2 * FX_ONE)
    }
}

/// The reflection of `d` across the unit normal `n`, as `reflect`
/// computes it.
pub open spec fn reflect_s(d: Vec3, n: Vec3) -> (int, int, int) {
    let c = tdiv(dot_n(d, n), FX_ONE as int);
    (
        d.x - fmul(2 * c, n.x as int),
        d.y - fmul(2 * c, n.y as int),
        d.z - fmul(2 * c, n.z as int),
    )
}

/// The refraction of `d` at the unit normal `n` with the given ratio of
/// refractive indices, as `refract` computes it.
pub open spec fn refract_s(d: Vec3, n: Vec3, ratio: int) -> (int, int, int) {
    let c = tdiv(dot_n(d, n), FX_ONE as int);
    let tx = d.x - fmul(n.x as int, c);
    let ty = d.y - fmul(n.y as int, c);
    let tz = d.z - fmul(n.z as int, c);
    let px = fmul(tx, ratio);
    let py = fmul(ty, ratio);
    let pz = fmul(tz, ratio);
    let l2 = tdiv(px * px + py * py + pz * pz, FX_ONE as int);
    let par = FX_ONE - l2;
    let a = if par < 0 {
        -par
    } else {
        par
    };
    let sq = sqrt_i(a * FX_ONE);
    (px - fmul(n.x as int, sq), py - fmul(n.y as int, sq), pz - fmul(n.z as int, sq))
}

/// A ray: an origin and a unit direction.
#[derive(Clone, Copy, Debug, PartialEq, Eq, Structural)]
pub struct Ray {
    pub origin: Point3,
    pub direction: UnitVec3,
}

impl Ray {
    /// The origin is a representable point and the direction is a unit
    /// vector.
    pub open spec fn wf(self) -> bool {
        &&& in_range(self.origin, POINT_MAX as int)
        &&& self.direction.wf()
    }

    pub fn new(origin: Point3, direction: UnitVec3) -> (r: Self)
        ensures
            r == (Ray { origin, direction }),
    {
        Ray { origin, direction }
    }

    /// The point reached after parameter `t` along the ray.
    pub fn at(&self, t: i64) -> (r: Point3)
        requires
            self.wf(),
            -POINT_MAX <= t <= POINT_MAX,
        ensures
            r.x == self.origin.x + fmul(self.direction.0.x as int, t as int),
            r.y == self.origin.y + fmul(self.direction.0.y as int, t as int),
            r.z == self.origin.z + fmul(self.direction.0.z as int, t as int),
    {
        proof {
            crate::fixed::lemma_fmul_bound(
                self.direction.0.x as int,
                t as int,
                FX_ONE as int,
                POINT_MAX as int,
            );
            crate::fixed::lemma_fmul_bound(
                self.direction.0.y as int,
                t as int,
                FX_ONE as int,
                POINT_MAX as int,
            );
            crate::fixed::lemma_fmul_bound(
                self.direction.0.z as int,
                t as int,
                FX_ONE as int,
                POINT_MAX as int,
            );
            lemma_div_by_multiple(POINT_MAX as int, FX_ONE as int);
        }
        self.origin.plus(self.direction.0.scale(t))
    }
}

/// The cross product, for vector types where it is defined.
pub trait CrossProduct: Sized {
    /// The precondition under which `cross` is defined.
    spec fn cross_req(self, rhs: Self) -> bool;

    /// What `cross` returns.
    spec fn cross_ens(self, rhs: Self, r: Self) -> bool;

    fn cross(self, rhs: Self) -> (r: Self)
        requires
            self.cross_req(rhs),
        ensures
            self.cross_ens(rhs, r),
    ;
}

impl CrossProduct for Vec3 {
    open spec fn cross_req(self, rhs: Vec3) -> bool {
        in_range(self, POINT_MAX as int) && in_range(rhs, POINT_MAX as int)
    }

    open spec fn cross_ens(self, rhs: Vec3, r: Vec3) -> bool {
        &&& r.x == fmul(self.y as int, rhs.z as int) - fmul(self.z as int, rhs.y as int)
        &&& r.y == fmul(self.z as int, rhs.x as int) - fmul(self.x as int, rhs.z as int)
        &&& r.z == fmul(self.x as int, rhs.y as int) - fmul(self.y as int, rhs.x as int)
    }

    fn cross(self, rhs: Vec3) -> (r: Vec3) {
        proof {
            let pb = POINT_MAX as int;
            crate::fixed::lemma_fmul_bound(self.y as int, rhs.z as int, pb, pb);
            crate::fixed::lemma_fmul_bound(self.z as int, rhs.y as int, pb, pb);
            crate::fixed::lemma_fmul_bound(self.z as int, rhs.x as int, pb, pb);
            crate::fixed::lemma_fmul_bound(self.x as int, rhs.z as int, pb, pb);
            crate::fixed::lemma_fmul_bound(self.x as int, rhs.y as int, pb, pb);
            crate::fixed::lemma_fmul_bound(self.y as int, rhs.x as int, pb, pb);
        }
        Vec3 {
            x: fx_mul(self.y, rhs.z) - fx_mul(self.z, rhs.y),
            y: fx_mul(self.z, rhs.x) - fx_mul(self.x, rhs.z),
            z: fx_mul(self.x, rhs.y) - fx_mul(self.y, rhs.x),
        }
    }
}

} // verus!
