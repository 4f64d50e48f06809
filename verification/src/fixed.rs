//! Fixed-point scalar arithmetic.
//!
//! A scalar is an `i64` holding `FX_ONE` times its real value.  Executable
//! operations round toward zero, exactly as the spec-level `tdiv`, `fmul`
//! and `fdiv` say, and square roots are integer square roots.

use vstd::arithmetic::div_mod::{lemma_div_is_ordered, lemma_div_pos_is_pos};
use vstd::prelude::*;

verus! {

/// The fixed-point unit: this integer stands for the real number 1.
pub const FX_ONE: i64 = 1048576;

/// Truncating division (rounds toward zero), for a positive divisor.
pub open spec fn tdiv(a: int, b: int) -> int
    recommends
        b > 0,
{
    if a >= 0 {
        a / b
    } else {
        -((-a) / b)
    }
}

/// Product of two fixed-point scalars, as computed: the wide product of the
/// two integers, scaled back down with truncation.
pub open spec fn fmul(a: int, b: int) -> int {
    tdiv(a * b, FX_ONE as int)
}

/// Quotient of two fixed-point scalars, as computed: the dividend is scaled
/// up before the truncating division.
pub open spec fn fdiv(a: int, b: int) -> int
    recommends
        b > 0,
{
    tdiv(a * FX_ONE, b)
}

/// `r` is the integer square root of `n`.
pub open spec fn is_sqrt(n: int, r: int) -> bool {
    0 <= r && r * r <= n && n < (r + 1) * (r + 1)
}

/// The integer square root, characterised by `lemma_sqrt`.
pub closed spec fn sqrt_i(n: int) -> int {
    choose|r: int| is_sqrt(n, r)
}

proof fn lemma_sqrt_exists(n: int) -> (r: int)
    requires
        n >= 0,
    ensures
        is_sqrt(n, r),
    decreases n,
{
    if n == 0 {
        assert(is_sqrt(0, 0)) by (nonlinear_arith);
        0
    } else {
        let p = lemma_sqrt_exists(n - 1);
        if n < (p + 1) * (p + 1) {
            assert(is_sqrt(n, p));
            p
        } else {
            assert(n == (p + 1) * (p + 1));
            assert((p + 1) * (p + 1) < (p + 2) * (p + 2)) by (nonlinear_arith)
                requires
                    p >= 0,
            ;
            assert(is_sqrt(n, p + 1));
            p + 1
        }
    }
}

/// Any two integer square roots of the same number agree.
pub proof fn lemma_sqrt_unique(n: int, r1: int, r2: int)
    requires
        is_sqrt(n, r1),
        is_sqrt(n, r2),
    ensures
        r1 == r2,
{
    assert(r1 == r2) by (nonlinear_arith)
        requires
            0 <= r1 && r1 * r1 <= n && n < (r1 + 1) * (r1 + 1),
            0 <= r2 && r2 * r2 <= n && n < (r2 + 1) * (r2 + 1),
    ;
}

/// `sqrt_i(n)` really is the integer square root of any `n >= 0`.
pub proof fn lemma_sqrt(n: int)
    requires
        n >= 0,
    ensures
        is_sqrt(n, sqrt_i(n)),
{
    let r = lemma_sqrt_exists(n);
    assert(is_sqrt(n, r));
}

/// A bound on the magnitude of a truncating division follows from a bound
/// on the dividend.
pub proof fn lemma_tdiv_in_range(a: int, b: int, c: int)
    requires
        b > 0,
        0 <= c,
        -c <= a <= c,
    ensures
        -(c / b) <= tdiv(a, b) <= c / b,
        0 <= a ==> 0 <= tdiv(a, b),
        a <= 0 ==> tdiv(a, b) <= 0,
{
    if a >= 0 {
        lemma_div_is_ordered(a, c, b);
        lemma_div_pos_is_pos(a, b);
    } else {
        lemma_div_is_ordered(-a, c, b);
        lemma_div_pos_is_pos(-a, b);
    }
}

/// Truncating division commutes with negation of the dividend.
pub proof fn lemma_tdiv_neg(a: int, b: int)
    requires
        b > 0,
    ensures
        tdiv(-a, b) == -tdiv(a, b),
{
    if a == 0 {
        assert(tdiv(0, b) == 0int / b);
    }
}

/// A bound on a fixed-point product follows from bounds on its factors.
pub proof fn lemma_fmul_bound(a: int, b: int, ca: int, cb: int)
    requires
        0 <= ca,
        0 <= cb,
        -ca <= a <= ca,
        -cb <= b <= cb,
    ensures
        -((ca * cb) / FX_ONE as int) <= fmul(a, b) <= (ca * cb) / FX_ONE as int,
{
    assert(-(ca * cb) <= a * b <= ca * cb) by (nonlinear_arith)
        requires
            0 <= ca && 0 <= cb && -ca <= a <= ca && -cb <= b <= cb,
    ;
    assert(ca * cb >= 0) by (nonlinear_arith)
        requires
            0 <= ca && 0 <= cb,
    ;
    lemma_tdiv_in_range(a * b, FX_ONE as int, ca * cb);
}

/// Scaling by a factor between 0 and 1 keeps a nonnegative scalar within
/// its old bound.
pub proof fn lemma_fmul_unit_bound(a: int, b: int, c: int)
    requires
        0 <= a <= FX_ONE,
        0 <= b <= c,
    ensures
        0 <= fmul(a, b) <= c,
{
    assert(0 <= a * b <= FX_ONE * c) by (nonlinear_arith)
        requires
            0 <= a <= FX_ONE && 0 <= b <= c,
    ;
    lemma_tdiv_in_range(a * b, FX_ONE as int, FX_ONE * c);
    assert((FX_ONE * c) / FX_ONE as int == c) by {
        vstd::arithmetic::div_mod::lemma_div_multiples_vanish(c, FX_ONE as int);
    }
}

/// Truncating division leaves a remainder smaller than the divisor, of
/// the dividend's sign.
pub proof fn lemma_tdiv_decompose(a: int, b: int) -> (r: int)
    requires
        b > 0,
    ensures
        a == tdiv(a, b) * b + r,
        -b < r < b,
        a >= 0 ==> r >= 0,
        a <= 0 ==> r <= 0,
{
    if a >= 0 {
        vstd::arithmetic::div_mod::lemma_fundamental_div_mod(a, b);
        assert(b * (a / b) == (a / b) * b) by (nonlinear_arith);
        a % b
    } else {
        vstd::arithmetic::div_mod::lemma_fundamental_div_mod(-a, b);
        assert(b * ((-a) / b) == ((-a) / b) * b) by (nonlinear_arith);
        assert(tdiv(a, b) * b == -(((-a) / b) * b)) by (nonlinear_arith)
            requires
                tdiv(a, b) == -((-a) / b),
        ;
        -((-a) % b)
    }
}

/// A multiple of the divisor bounds the quotient.
pub proof fn lemma_tdiv_le_mult(a: int, b: int, k: int)
    requires
        b > 0,
        0 <= a,
        a <= k * b,
        0 <= k,
    ensures
        0 <= tdiv(a, b) <= k,
{
    assert(k * b >= 0) by (nonlinear_arith)
        requires
            0 <= k && b > 0,
    ;
    lemma_tdiv_in_range(a, b, k * b);
    vstd::arithmetic::div_mod::lemma_div_by_multiple(k, b);
}

/// Truncating division of an `i128`, via unsigned division.
pub fn tdiv_i128(a: i128, b: i128) -> (r: i128)
    requires
        b > 0,
        a > i128::MIN,
    ensures
        r == tdiv(a as int, b as int),
{
    if a >= 0 {
        let q: u128 = (a as u128) / (b as u128);
        proof {
            lemma_div_is_ordered(a as int, i128::MAX as int, b as int);
            lemma_div_pos_is_pos(a as int, b as int);
        }
        q as i128
    } else {
        let m: i128 = -a;
        let q: u128 = (m as u128) / (b as u128);
        proof {
            lemma_div_is_ordered(m as int, i128::MAX as int, b as int);
            lemma_div_pos_is_pos(m as int, b as int);
        }
        -(q as i128)
    }
}

/// Fixed-point multiplication.
pub fn fx_mul(a: i64, b: i64) -> (r: i64)
    requires
        -i64::MAX <= fmul(a as int, b as int) <= i64::MAX,
    ensures
        r == fmul(a as int, b as int),
{
    let p: i128 = (a as i128) * (b as i128);
    let q = tdiv_i128(p, FX_ONE as i128);
    q as i64
}

/// Fixed-point division, for a positive divisor.
pub fn fx_div(a: i64, b: i64) -> (r: i64)
    requires
        b > 0,
        -i64::MAX <= fdiv(a as int, b as int) <= i64::MAX,
    ensures
        r == fdiv(a as int, b as int),
{
    let p: i128 = (a as i128) * (FX_ONE as i128);
    let q = tdiv_i128(p, b as i128);
    q as i64
}

/// Integer square root by binary search.
pub fn isqrt_u128(n: u128) -> (r: u64)
    ensures
        is_sqrt(n as int, r as int),
        r == sqrt_i(n as int),
{
    let mut lo: u128 = 0;
    let mut hi: u128 = 0x1_0000_0000_0000_0000;
    while lo + 1 < hi
        invariant
            0 <= lo < hi <= 0x1_0000_0000_0000_0000u128,
            lo * lo <= n,
            hi * hi > n as int,
        decreases hi - lo,
    {
        let mid: u128 = lo + (hi - lo) / 2;
        assert(lo < mid < hi);
        if mid <= n / mid {
            proof {
                assert(mid * mid <= n) by (nonlinear_arith)
                    requires
                        mid > 0,
                        mid <= n as int / mid as int,
                ;
            }
            lo = mid;
        } else {
            proof {
                assert(mid * mid > n) by (nonlinear_arith)
                    requires
                        mid > 0,
                        mid > n as int / mid as int,
                ;
            }
            hi = mid;
        }
    }
    proof {
        lemma_sqrt(n as int);
        lemma_sqrt_unique(n as int, lo as int, sqrt_i(n as int));
    }
    lo as u64
}

} // verus!
