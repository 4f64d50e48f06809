//! Library-wide laws: bounds on the length error of normalisation and
//! reflection on the fixed-point grid.

use crate::fixed::{fmul, is_sqrt, lemma_sqrt, lemma_tdiv_decompose, sqrt_i, tdiv, FX_ONE};
use crate::vec3::{dot_n, in_range, norm2_n, normalize_s, reflect_s, scale_pow, Vec3, VEC_MAX};
use vstd::prelude::*;

verus! {

/// `t` is a power of four.
pub open spec fn pow4(t: int) -> bool
    decreases t,
{
    if t == 1 {
        true
    } else if t < 1 {
        false
    } else {
        t % 4 == 0 && pow4(t / 4)
    }
}

/// The scale factor squares the vector's squared length into `[t, 4t)`,
/// unless no scaling was needed at all.
proof fn lemma_scale_pow_bounds(n: int, t: int)
    requires
        n >= 1,
        t >= 1,
        pow4(t),
    ensures
        scale_pow(n, t) >= 1,
        n * (scale_pow(n, t) * scale_pow(n, t)) >= t,
        n * (scale_pow(n, t) * scale_pow(n, t)) < 4 * t || scale_pow(n, t) == 1,
    decreases t,
{
    if t <= n || t < 4 {
        assert(scale_pow(n, t) == 1);
        if t < 4 && t > n {
            assert(t == 1);
            assert(false);
        }
        assert(n * (1int * 1int) == n) by (nonlinear_arith);
    } else {
        assert(t % 4 == 0 && pow4(t / 4));
        lemma_scale_pow_bounds(n, t / 4);
        let p0 = scale_pow(n, t / 4);
        let p = scale_pow(n, t);
        assert(p == 2 * p0);
        assert(t == 4 * (t / 4));
        assert(n * (p * p) == 4 * (n * (p0 * p0))) by (nonlinear_arith)
            requires
                p == 2 * p0,
        ;
        assert(n * (p0 * p0) >= t / 4);
        if p0 == 1 {
            assert(n * (p0 * p0) == n) by (nonlinear_arith)
                requires
                    p0 == 1,
            ;
            assert(n * (p * p) == 4 * n);
        }
    }
}

/// Normalisation yields a vector of length one, up to a small error on
/// the fixed-point grid: the squared length of the normalised image lies
/// within `9 * FX_ONE` of `FX_ONE * FX_ONE`, so its length lies within 4
/// steps of `FX_ONE`.  This fails for no nonzero input in range.
pub proof fn lemma_unit_vector_length(x: int, y: int, z: int)
    requires
        -VEC_MAX <= x <= VEC_MAX,
        -VEC_MAX <= y <= VEC_MAX,
        -VEC_MAX <= z <= VEC_MAX,
        !(x == 0 && y == 0 && z == 0),
    ensures
        ({
            let (ux, uy, uz) = normalize_s(x, y, z);
            FX_ONE * FX_ONE - 6 * FX_ONE <= ux * ux + uy * uy + uz * uz <= FX_ONE * FX_ONE + 9
                * FX_ONE
        }),
        ({
            let (ux, uy, uz) = normalize_s(x, y, z);
            FX_ONE - 4 <= sqrt_i(ux * ux + uy * uy + uz * uz) <= FX_ONE + 4
        }),
{
    let s = FX_ONE as int;
    let n = x * x + y * y + z * z;
    assert(x != 0 ==> x * x >= 1) by (nonlinear_arith);
    assert(y != 0 ==> y * y >= 1) by (nonlinear_arith);
    assert(z != 0 ==> z * z >= 1) by (nonlinear_arith);
    assert(x * x >= 0 && y * y >= 0 && z * z >= 0) by (nonlinear_arith);
    assert(n >= 1);
    assert(pow4(s * s)) by {
        reveal_with_fuel(pow4, 25);
    }
    lemma_scale_pow_bounds(n, s * s);
    let p = scale_pow(n, s * s);
    let m = n * (p * p);
    assert(m >= s * s);
    lemma_sqrt(m);
    let l = sqrt_i(m);
    assert(l >= s) by (nonlinear_arith)
        requires
            is_sqrt(m, l),
            m >= s * s,
            s >= 1,
    ;
    let xp = x * p;
    let yp = y * p;
    let zp = z * p;
    assert(xp * xp == (x * x) * (p * p)) by (nonlinear_arith)
        requires
            xp == x * p,
    ;
    assert(yp * yp == (y * y) * (p * p)) by (nonlinear_arith)
        requires
            yp == y * p,
    ;
    assert(zp * zp == (z * z) * (p * p)) by (nonlinear_arith)
        requires
            zp == z * p,
    ;
    assert(n * (p * p) == (x * x) * (p * p) + (y * y) * (p * p) + (z * z) * (p * p))
        by (nonlinear_arith)
        requires
            n == x * x + y * y + z * z,
    ;
    assert(xp * xp + yp * yp + zp * zp == m);
    assert(xp * xp >= 0 && yp * yp >= 0 && zp * zp >= 0) by (nonlinear_arith);
    assert(-l <= xp <= l && -l <= yp <= l && -l <= zp <= l) by (nonlinear_arith)
        requires
            xp * xp <= m,
            yp * yp <= m,
            zp * zp <= m,
            is_sqrt(m, l),
    ;
    let ux = tdiv(xp * s, l);
    let uy = tdiv(yp * s, l);
    let uz = tdiv(zp * s, l);
    assert(x * p * s == xp * s && y * p * s == yp * s && z * p * s == zp * s);
    assert(n * p * p == m) by (nonlinear_arith)
        requires
            m == n * (p * p),
    ;
    assert(normalize_s(x, y, z) == (ux, uy, uz));
    let rx = lemma_tdiv_decompose(xp * s, l);
    let ry = lemma_tdiv_decompose(yp * s, l);
    let rz = lemma_tdiv_decompose(zp * s, l);
    let q2 = ux * ux + uy * uy + uz * uz;
    assert((ux * l) * (ux * l) == (s * s) * (xp * xp) - 2 * s * (xp * rx) + rx * rx)
        by (nonlinear_arith)
        requires
            xp * s == ux * l + rx,
    ;
    assert((uy * l) * (uy * l) == (s * s) * (yp * yp) - 2 * s * (yp * ry) + ry * ry)
        by (nonlinear_arith)
        requires
            yp * s == uy * l + ry,
    ;
    assert((uz * l) * (uz * l) == (s * s) * (zp * zp) - 2 * s * (zp * rz) + rz * rz)
        by (nonlinear_arith)
        requires
            zp * s == uz * l + rz,
    ;
    assert((l * l) * q2 == (ux * l) * (ux * l) + (uy * l) * (uy * l) + (uz * l) * (uz * l))
        by (nonlinear_arith)
        requires
            q2 == ux * ux + uy * uy + uz * uz,
    ;
    assert((s * s) * m == (s * s) * (xp * xp) + (s * s) * (yp * yp) + (s * s) * (zp * zp))
        by (nonlinear_arith)
        requires
            m == xp * xp + yp * yp + zp * zp,
    ;
    assert((l * l) * q2 == (s * s) * m - 2 * s * (xp * rx) - 2 * s * (yp * ry) - 2 * s * (zp * rz)
        + (rx * rx + ry * ry + rz * rz));
    assert(-(l * l) <= xp * rx <= l * l) by (nonlinear_arith)
        requires
            -l <= xp <= l,
            -l < rx < l,
            l >= 1,
    ;
    assert(-(l * l) <= yp * ry <= l * l) by (nonlinear_arith)
        requires
            -l <= yp <= l,
            -l < ry < l,
            l >= 1,
    ;
    assert(-(l * l) <= zp * rz <= l * l) by (nonlinear_arith)
        requires
            -l <= zp <= l,
            -l < rz < l,
            l >= 1,
    ;
    assert(0 <= rx * rx <= l * l && 0 <= ry * ry <= l * l && 0 <= rz * rz <= l * l)
        by (nonlinear_arith)
        requires
            -l < rx < l,
            -l < ry < l,
            -l < rz < l,
            l >= 1,
    ;
    assert((s * s) * (l * l) <= (s * s) * m) by (nonlinear_arith)
        requires
            is_sqrt(m, l),
            s >= 1,
    ;
    assert((s * s) * m <= (s * s) * (l * l) + 2 * ((s * s) * l)) by (nonlinear_arith)
        requires
            is_sqrt(m, l),
            s >= 1,
            l >= 1,
    ;
    assert((l * l) * q2 <= (s * s) * (l * l) + 2 * ((s * s) * l) + 6 * (s * (l * l)) + 3 * (l * l));
    assert((l * l) * q2 >= (s * s) * (l * l) - 6 * (s * (l * l)));
    assert(q2 <= s * s + 9 * s) by (nonlinear_arith)
        requires
            (l * l) * q2 <= (s * s) * (l * l) + 2 * ((s * s) * l) + 6 * (s * (l * l)) + 3 * (l
                * l),
            l >= s,
            s >= 3,
    ;
    assert(q2 >= s * s - 6 * s) by (nonlinear_arith)
        requires
            (l * l) * q2 >= (s * s) * (l * l) - 6 * (s * (l * l)),
            l >= s,
            s >= 3,
    ;
    lemma_sqrt(q2);
    let lq = sqrt_i(q2);
    assert(s - 4 <= lq <= s + 4) by (nonlinear_arith)
        requires
            is_sqrt(q2, lq),
            s * s - 6 * s <= q2 <= s * s + 9 * s,
            s >= 64,
    ;
}

/// Reflecting a unit vector across a unit normal keeps its length one,
/// up to a small error on the fixed-point grid: if both inputs have
/// squared length within `10 * FX_ONE` of `FX_ONE * FX_ONE` (as every
/// normalised vector does), the reflection's squared length stays within
/// `425 * FX_ONE` of it, so its length stays within 214 steps of
/// `FX_ONE`.
pub proof fn lemma_reflect_length(d: Vec3, n: Vec3)
    requires
        in_range(d, FX_ONE as int),
        in_range(n, FX_ONE as int),
        FX_ONE * FX_ONE - 10 * FX_ONE <= norm2_n(d) <= FX_ONE * FX_ONE + 10 * FX_ONE,
        FX_ONE * FX_ONE - 10 * FX_ONE <= norm2_n(n) <= FX_ONE * FX_ONE + 10 * FX_ONE,
    ensures
        ({
            let (rx, ry, rz) = reflect_s(d, n);
            FX_ONE * FX_ONE - 425 * FX_ONE <= rx * rx + ry * ry + rz * rz <= FX_ONE * FX_ONE + 425
                * FX_ONE
        }),
        ({
            let (rx, ry, rz) = reflect_s(d, n);
            FX_ONE - 214 <= sqrt_i(rx * rx + ry * ry + rz * rz) <= FX_ONE + 214
        }),
{
    let s = FX_ONE as int;
    let dd = dot_n(d, n);
    assert(-(s * s) <= d.x * n.x <= s * s) by (nonlinear_arith)
        requires
            -s <= d.x <= s && -s <= n.x <= s,
    ;
    assert(-(s * s) <= d.y * n.y <= s * s) by (nonlinear_arith)
        requires
            -s <= d.y <= s && -s <= n.y <= s,
    ;
    assert(-(s * s) <= d.z * n.z <= s * s) by (nonlinear_arith)
        requires
            -s <= d.z <= s && -s <= n.z <= s,
    ;
    crate::fixed::lemma_tdiv_in_range(dd, s, 3 * (s * s));
    let c = tdiv(dd, s);
    let de = lemma_tdiv_decompose(dd, s);
    assert(-(3 * s) <= c <= 3 * s);
    let k = 2 * c;
    let mx = fmul(k, n.x as int);
    let my = fmul(k, n.y as int);
    let mz = fmul(k, n.z as int);
    let ex = lemma_tdiv_decompose(k * n.x, s);
    let ey = lemma_tdiv_decompose(k * n.y, s);
    let ez = lemma_tdiv_decompose(k * n.z, s);
    let rx = d.x - mx;
    let ry = d.y - my;
    let rz = d.z - mz;
    assert(reflect_s(d, n) == (rx, ry, rz));
    let q = rx * rx + ry * ry + rz * rz;
    lemma_reflect_comp(s, d.x as int, n.x as int, k, mx, ex, rx);
    lemma_reflect_comp(s, d.y as int, n.y as int, k, my, ey, ry);
    lemma_reflect_comp(s, d.z as int, n.z as int, k, mz, ez, rz);
    assert((s * s) * q == (s * rx) * (s * rx) + (s * ry) * (s * ry) + (s * rz) * (s * rz))
        by (nonlinear_arith)
        requires
            q == rx * rx + ry * ry + rz * rz,
    ;
    let e1 = d.x * ex + d.y * ey + d.z * ez;
    let e2 = n.x * ex + n.y * ey + n.z * ez;
    let e3 = ex * ex + ey * ey + ez * ez;
    assert((k * s) * (d.x * n.x) + (k * s) * (d.y * n.y) + (k * s) * (d.z * n.z) == (k * s) * dd)
        by (nonlinear_arith)
        requires
            dd == d.x * n.x + d.y * n.y + d.z * n.z,
    ;
    assert((k * k) * (n.x * n.x) + (k * k) * (n.y * n.y) + (k * k) * (n.z * n.z) == (k * k)
        * norm2_n(n)) by (nonlinear_arith);
    assert(s * (d.x * ex) + s * (d.y * ey) + s * (d.z * ez) == s * e1) by (nonlinear_arith)
        requires
            e1 == d.x * ex + d.y * ey + d.z * ez,
    ;
    assert(k * (n.x * ex) + k * (n.y * ey) + k * (n.z * ez) == k * e2) by (nonlinear_arith)
        requires
            e2 == n.x * ex + n.y * ey + n.z * ez,
    ;
    assert((s * s) * (d.x * d.x) + (s * s) * (d.y * d.y) + (s * s) * (d.z * d.z) == (s * s)
        * norm2_n(d)) by (nonlinear_arith);
    assert((s * s) * q == (s * s) * norm2_n(d) - 2 * ((k * s) * dd) + 2 * (s * e1) + (k * k)
        * norm2_n(n) - 2 * (k * e2) + e3);
    // replace the inner product by its quotient and remainder
    assert((k * s) * dd == 2 * ((c * c) * (s * s)) + 2 * (s * (c * de))) by (nonlinear_arith)
        requires
            dd == c * s + de,
            k == 2 * c,
    ;
    assert((k * k) * norm2_n(n) == 4 * ((c * c) * (s * s)) + 4 * ((c * c) * (norm2_n(n) - s * s)))
        by (nonlinear_arith)
        requires
            k == 2 * c,
    ;
    let al = norm2_n(d) - s * s;
    let be = norm2_n(n) - s * s;
    assert((s * s) * q == (s * s) * (s * s) + (s * s) * al - 4 * (s * (c * de)) + 2 * (s * e1) + 4
        * ((c * c) * be) - 2 * (k * e2) + e3);
    // bound every error term
    assert(-(3 * (s * s)) <= c * de <= 3 * (s * s)) by (nonlinear_arith)
        requires
            -(3 * s) <= c <= 3 * s,
            -s < de < s,
            s >= 1,
    ;
    assert(-(s * s) <= d.x * ex <= s * s) by (nonlinear_arith)
        requires
            -s <= d.x <= s && -s < ex < s && s >= 1,
    ;
    assert(-(s * s) <= d.y * ey <= s * s) by (nonlinear_arith)
        requires
            -s <= d.y <= s && -s < ey < s && s >= 1,
    ;
    assert(-(s * s) <= d.z * ez <= s * s) by (nonlinear_arith)
        requires
            -s <= d.z <= s && -s < ez < s && s >= 1,
    ;
    assert(-(s * s) <= n.x * ex <= s * s) by (nonlinear_arith)
        requires
            -s <= n.x <= s && -s < ex < s && s >= 1,
    ;
    assert(-(s * s) <= n.y * ey <= s * s) by (nonlinear_arith)
        requires
            -s <= n.y <= s && -s < ey < s && s >= 1,
    ;
    assert(-(s * s) <= n.z * ez <= s * s) by (nonlinear_arith)
        requires
            -s <= n.z <= s && -s < ez < s && s >= 1,
    ;
    assert(0 <= ex * ex <= s * s && 0 <= ey * ey <= s * s && 0 <= ez * ez <= s * s)
        by (nonlinear_arith)
        requires
            -s < ex < s && -s < ey < s && -s < ez < s && s >= 1,
    ;
    assert(0 <= c * c <= 9 * (s * s)) by (nonlinear_arith)
        requires
            -(3 * s) <= c <= 3 * s,
    ;
    assert(-(90 * ((s * s) * s)) <= (c * c) * be <= 90 * ((s * s) * s)) by (nonlinear_arith)
        requires
            0 <= c * c <= 9 * (s * s),
            -(10 * s) <= be <= 10 * s,
            s >= 1,
    ;
    assert(-(9 * ((s * s) * s)) <= c * e2 <= 9 * ((s * s) * s)) by (nonlinear_arith)
        requires
            -(3 * s) <= c <= 3 * s,
            -(3 * (s * s)) <= e2 <= 3 * (s * s),
            s >= 1,
    ;
    assert(k * e2 == 2 * (c * e2)) by (nonlinear_arith)
        requires
            k == 2 * c,
    ;
    assert((s * s) * (s * s) - 425 * ((s * s) * s) <= (s * s) * q);
    assert((s * s) * q <= (s * s) * (s * s) + 425 * ((s * s) * s));
    assert(s * s - 425 * s <= q <= s * s + 425 * s);
    lemma_sqrt(q);
    let lq = sqrt_i(q);
    assert(s - 214 <= lq <= s + 214) by (nonlinear_arith)
        requires
            is_sqrt(q, lq),
            s * s - 425 * s <= q <= s * s + 425 * s,
            s >= 65536,
    ;
}

/// One component of the reflection identity: the squared scaled residual
/// in terms of the incoming component, the normal component and the
/// rounding remainder.
proof fn lemma_reflect_comp(s: int, di: int, ni: int, k: int, mi: int, ei: int, ri: int)
    requires
        ri == di - mi,
        mi * s == k * ni - ei,
    ensures
        (s * ri) * (s * ri) == (s * s) * (di * di) - 2 * ((k * s) * (di * ni)) + 2 * (s * (di
            * ei)) + (k * k) * (ni * ni) - 2 * (k * (ni * ei)) + ei * ei,
{
    let a = s * di;
    let b = k * ni;
    assert(s * ri == a - b + ei) by (nonlinear_arith)
        requires
            ri == di - mi,
            mi * s == k * ni - ei,
            a == s * di,
            b == k * ni,
    ;
    assert((a - b + ei) * (a - b + ei) == a * a - 2 * (a * b) + 2 * (a * ei) + b * b - 2 * (b * ei)
        + ei * ei) by (nonlinear_arith);
    assert(a * a == (s * s) * (di * di)) by (nonlinear_arith)
        requires
            a == s * di,
    ;
    assert(a * b == (k * s) * (di * ni)) by (nonlinear_arith)
        requires
            a == s * di,
            b == k * ni,
    ;
    assert(a * ei == s * (di * ei)) by (nonlinear_arith)
        requires
            a == s * di,
    ;
    assert(b * b == (k * k) * (ni * ni)) by (nonlinear_arith)
        requires
            b == k * ni,
    ;
    assert(b * ei == k * (ni * ei)) by (nonlinear_arith)
        requires
            b == k * ni,
    ;
}

} // verus!
