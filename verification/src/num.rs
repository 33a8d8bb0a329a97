//! Fixed-point scalar arithmetic.
//!
//! Every physical quantity in this library (radius, eccentricity, angle,
//! time) is a real number held as an `i64` count of ticks, where `SCALE`
//! ticks make one unit. All arithmetic on such scalars reduces to the
//! truncating combination `a * b / d` computed without intermediate
//! overflow, and to an integer square root; both are verified here
//! against exact mathematical definitions.

use vstd::prelude::*;

verus! {

use vstd::arithmetic::mul::{lemma_mul_upper_bound, lemma_mul_inequality, lemma_mul_nonnegative};
use vstd::arithmetic::div_mod::lemma_div_pos_is_pos;

/// Number of ticks in one unit.
pub const SCALE: i64 = 1_000_000_000;

/// Magnitude (absolute value) of an integer.
pub open spec fn mag(a: int) -> int {
    if a >= 0 {
        a
    } else {
        -a
    }
}

/// Sign of an integer: -1, 0 or 1.
pub open spec fn sgn(a: int) -> int {
    if a > 0 {
        1
    } else if a == 0 {
        0
    } else {
        -1
    }
}

/// `a * b / d` rounded toward zero, the value every scalar operation
/// of this library produces. Unspecified when `d == 0`.
pub open spec fn mul_div(a: int, b: int, d: int) -> int {
    sgn(a) * sgn(b) * sgn(d) * ((mag(a) * mag(b)) / mag(d))
}

/// Product of two scalars, in ticks: `a * b / SCALE`, rounded toward zero.
pub open spec fn scaled_mul(a: int, b: int) -> int {
    mul_div(a, b, SCALE as int)
}

/// Quotient of two scalars, in ticks: `a * SCALE / b`, rounded toward zero.
pub open spec fn scaled_div(a: int, b: int) -> int {
    mul_div(a, SCALE as int, b)
}

/// Magnitude of an `i64`, exact also for `i64::MIN`.
pub fn abs_u64(a: i64) -> (r: u64)
    ensures
        r as int == mag(a as int),
{
    if a >= 0 {
        a as u64
    } else {
        (-(a as i128)) as u64
    }
}

/// |a * b| == |a| * |b|.
pub proof fn lemma_mag_mul(a: int, b: int)
    ensures
        mag(a * b) == mag(a) * mag(b),
{
    assert(mag(a * b) == mag(a) * mag(b)) by (nonlinear_arith);
}

/// The magnitude of `mul_div` is the quotient of the magnitudes.
pub proof fn lemma_mag_mul_div(a: int, b: int, d: int)
    requires
        d != 0,
    ensures
        mag(mul_div(a, b, d)) == mag(a) * mag(b) / mag(d),
{
    let q = mag(a) * mag(b) / mag(d);
    lemma_mul_nonnegative(mag(a), mag(b));
    lemma_div_pos_is_pos(mag(a) * mag(b), mag(d));
    let s = sgn(a) * sgn(b) * sgn(d);
    if a == 0 || b == 0 {
        assert(mag(a) * mag(b) == 0) by (nonlinear_arith)
            requires
                a == 0 || b == 0,
        ;
        vstd::arithmetic::div_mod::lemma_div_of0(mag(d));
        assert(s * q == 0) by (nonlinear_arith)
            requires
                q == 0,
        ;
    } else {
        assert((s == 1 || s == -1) && mag(s * q) == q) by (nonlinear_arith)
            requires
                (sgn(a) == 1 || sgn(a) == -1),
                (sgn(b) == 1 || sgn(b) == -1),
                (sgn(d) == 1 || sgn(d) == -1),
                s == sgn(a) * sgn(b) * sgn(d),
                q >= 0,
        ;
    }
}

/// For nonnegative operands and a positive divisor, `mul_div` is plain
/// integer division of the product.
pub proof fn lemma_mul_div_pos(a: int, b: int, d: int)
    requires
        a >= 0,
        b >= 0,
        d > 0,
    ensures
        mul_div(a, b, d) == (a * b) / d,
{
    lemma_mag_mul(a, b);
    if a == 0 || b == 0 {
        assert(a * b == 0) by (nonlinear_arith)
            requires
                a == 0 || b == 0,
        ;
        vstd::arithmetic::div_mod::lemma_div_of0(d);
        assert(sgn(a) * sgn(b) * sgn(d) * ((mag(a) * mag(b)) / mag(d)) == 0) by (nonlinear_arith)
            requires
                (mag(a) * mag(b)) / mag(d) == 0,
        ;
    } else {
        let q = (a * b) / d;
        assert(sgn(a) * sgn(b) * sgn(d) * ((mag(a) * mag(b)) / mag(d)) == q) by (nonlinear_arith)
            requires
                sgn(a) == 1,
                sgn(b) == 1,
                sgn(d) == 1,
                mag(a) == a,
                mag(b) == b,
                mag(d) == d,
                q == (a * b) / d,
        ;
    }
}

/// A bound on both factors caps `mag(a) * mag(b) / d`.
pub proof fn lemma_mul_div_cap(a: int, b: int, d: int, abound: int, bbound: int, cap: int)
    requires
        mag(a) <= abound,
        mag(b) <= bbound,
        d >= 1,
        abound * bbound <= cap * d,
    ensures
        mag(a) * mag(b) / d <= cap,
{
    lemma_mul_upper_bound(mag(a), abound, mag(b), bbound);
    vstd::arithmetic::div_mod::lemma_multiply_divide_le(mag(a) * mag(b), d, cap);
    assert(d * cap == cap * d) by (nonlinear_arith);
}

/// A truncated squared scalar is nonnegative whatever the sign of the
/// base.
pub proof fn lemma_scaled_mul_square_nonneg(a: int)
    ensures
        scaled_mul(a, a) >= 0,
        scaled_mul(a, a) == mag(a) * mag(a) / SCALE as int,
{
    lemma_mul_nonnegative(mag(a), mag(a));
    lemma_div_pos_is_pos(mag(a) * mag(a), SCALE as int);
    let q = mag(a) * mag(a) / (SCALE as int);
    if a == 0 {
        assert(sgn(a) * sgn(a) * sgn(SCALE as int) * q == 0) by (nonlinear_arith)
            requires
                sgn(a) == 0,
        ;
    } else {
        assert(sgn(a) * sgn(a) * sgn(SCALE as int) * q == q) by (nonlinear_arith)
            requires
                sgn(a) == 1 || sgn(a) == -1,
                sgn(SCALE as int) == 1,
        ;
    }
}

/// Bounds on a quotient of a square from bounds on the base.
pub proof fn lemma_sq_div_bounds(x: int, lo: int, hi: int, d: int)
    requires
        0 <= lo <= x <= hi,
        d >= 1,
    ensures
        lo * lo / d <= x * x / d <= hi * hi / d,
{
    lemma_mul_upper_bound(x, hi, x, hi);
    lemma_mul_upper_bound(lo, x, lo, x);
    vstd::arithmetic::div_mod::lemma_div_is_ordered(lo * lo, x * x, d);
    vstd::arithmetic::div_mod::lemma_div_is_ordered(x * x, hi * hi, d);
}

/// Multiplying a scalar by the unit scalar returns it unchanged, and by
/// the negated unit scalar negates it.
pub proof fn lemma_scaled_mul_scale(a: int)
    ensures
        scaled_mul(a, SCALE as int) == a,
        scaled_mul(a, -SCALE as int) == -a,
{
    vstd::arithmetic::div_mod::lemma_div_by_multiple(mag(a), SCALE as int);
    let q = (mag(a) * mag(SCALE as int)) / mag(SCALE as int);
    let qn = (mag(a) * mag(-SCALE as int)) / mag(SCALE as int);
    assert(q == mag(a) && qn == mag(a));
    if a == 0 {
        assert(sgn(a) * 1 * 1 * q == 0 && sgn(a) * (-1) * 1 * qn == 0) by (nonlinear_arith)
            requires
                sgn(a) == 0,
        ;
    } else if a > 0 {
        assert(sgn(a) * 1 * 1 * q == a && sgn(a) * (-1) * 1 * qn == -a) by (nonlinear_arith)
            requires
                sgn(a) == 1,
                q == a,
                qn == a,
        ;
    } else {
        assert(sgn(a) * 1 * 1 * q == a && sgn(a) * (-1) * 1 * qn == -a) by (nonlinear_arith)
            requires
                sgn(a) == -1,
                q == -a,
                qn == -a,
        ;
    }
}

/// Alias stating only the negated form, for readability at call sites.
pub proof fn lemma_scaled_mul_neg_scale(a: int)
    ensures
        scaled_mul(a, -SCALE as int) == -a,
{
    lemma_scaled_mul_scale(a);
}

/// Truncating evaluation of `a * b / d` over 64-bit scalars, when the
/// caller can show the value fits.
pub fn mul_div_i64(a: i64, b: i64, d: i64) -> (r: i64)
    requires
        d != 0,
        mag(a as int) * mag(b as int) / mag(d as int) <= i64::MAX as int,
    ensures
        r as int == mul_div(a as int, b as int, d as int),
{
    proof {
        lemma_mag_mul_div(a as int, b as int, d as int);
    }
    match mul_div_checked(a, b, d) {
        Some(v) => v,
        None => vstd::pervasive::unreached(),
    }
}

/// Product of two scalars in ticks.
pub fn scaled_mul_i64(a: i64, b: i64) -> (r: i64)
    requires
        mag(a as int) * mag(b as int) / SCALE as int <= i64::MAX as int,
    ensures
        r as int == scaled_mul(a as int, b as int),
{
    mul_div_i64(a, b, SCALE)
}

/// Quotient of two scalars in ticks.
pub fn scaled_div_i64(a: i64, b: i64) -> (r: i64)
    requires
        b != 0,
        mag(a as int) * SCALE as int / mag(b as int) <= i64::MAX as int,
    ensures
        r as int == scaled_div(a as int, b as int),
{
    mul_div_i64(a, SCALE, b)
}

/// Whether a mathematical value is representable as an `i64`.
pub open spec fn fits(v: int) -> bool {
    mag(v) <= i64::MAX
}

/// `mul_div` evaluated only when its value is representable.
pub fn mul_div_checked(a: i64, b: i64, d: i64) -> (r: Option<i64>)
    requires
        d != 0,
    ensures
        match r {
            Some(v) => v as int == mul_div(a as int, b as int, d as int) && fits(
                mul_div(a as int, b as int, d as int),
            ),
            None => !fits(mul_div(a as int, b as int, d as int)),
        },
{
    let ma = abs_u64(a);
    let mb = abs_u64(b);
    let md = abs_u64(d);
    proof {
        lemma_mul_upper_bound(ma as int, u64::MAX as int, mb as int, u64::MAX as int);
    }
    let prod: u128 = (ma as u128) * (mb as u128);
    let q: u128 = prod / (md as u128);
    proof {
        lemma_mag_mul_div(a as int, b as int, d as int);
    }
    if q > i64::MAX as u128 {
        return None;
    }
    proof {
        lemma_mag_mul(a as int, b as int);
    }
    let neg = ((a < 0) != (b < 0)) != (d < 0);
    proof {
        let ai = a as int;
        let bi = b as int;
        let di = d as int;
        let qi = (mag(ai) * mag(bi)) / mag(di);
        lemma_mul_nonnegative(mag(ai), mag(bi));
        lemma_div_pos_is_pos(mag(ai) * mag(bi), mag(di));
        assert(q as int == qi);
        if qi == 0 {
            assert(mul_div(ai, bi, di) == sgn(ai) * sgn(bi) * sgn(di) * 0);
            assert(sgn(ai) * sgn(bi) * sgn(di) * 0 == 0) by (nonlinear_arith);
        } else {
            if ai == 0 || bi == 0 {
                assert(mag(ai) * mag(bi) == 0) by (nonlinear_arith)
                    requires
                        ai == 0 || bi == 0,
                ;
                assert(qi == 0) by {
                    vstd::arithmetic::div_mod::lemma_div_of0(mag(di));
                }
                assert(false);
            }
            let sa = sgn(ai);
            let sb = sgn(bi);
            let sd = sgn(di);
            let s = sa * sb * sd;
            assert((s == 1 || s == -1) && (s == -1 <==> (((sa == -1) != (sb == -1)) != (sd
                == -1)))) by (nonlinear_arith)
                requires
                    (sa == 1 || sa == -1) && (sb == 1 || sb == -1) && (sd == 1 || sd == -1) && s
                        == sa * sb * sd,
            ;
            assert(s == -1 <==> (((ai < 0) != (bi < 0)) != (di < 0)));
            assert(mul_div(ai, bi, di) == s * qi);
            assert(1 * qi == qi) by (nonlinear_arith);
            assert((-1) * qi == -qi) by (nonlinear_arith);
        }
    }
    if neg && q > 0 {
        Some(-(q as i64))
    } else {
        Some(q as i64)
    }
}

/// A cosine computed by division can land just outside the unit range
/// through rounding; arc-cosine inputs are clamped back into it.
pub open spec fn clamp_unit(v: int) -> int {
    if v > SCALE {
        SCALE as int
    } else if v < -SCALE {
        -SCALE as int
    } else {
        v
    }
}

/// Remainder with the sign of the dividend (the convention of the
/// hardware and floating-point remainder operators).
pub open spec fn tmod(a: int, m: int) -> int {
    sgn(a) * (mag(a) % m)
}

/// Truncating remainder of a scalar by a positive modulus.
pub fn tmod_i64(a: i64, m: i64) -> (r: i64)
    requires
        m > 0,
    ensures
        r as int == tmod(a as int, m as int),
        mag(r as int) < m,
{
    let ma = abs_u64(a);
    let rem = ma % (m as u64);
    proof {
        vstd::arithmetic::div_mod::lemma_mod_bound(ma as int, m as int);
        let q = mag(a as int) % m as int;
        if a == 0 {
            vstd::arithmetic::div_mod::lemma_small_mod(0, m as nat);
            assert(sgn(a as int) * q == 0) by (nonlinear_arith)
                requires
                    sgn(a as int) == 0,
            ;
        } else if a > 0 {
            assert(sgn(a as int) * q == q) by (nonlinear_arith)
                requires
                    sgn(a as int) == 1,
            ;
        } else {
            assert(sgn(a as int) * q == -q) by (nonlinear_arith)
                requires
                    sgn(a as int) == -1,
            ;
        }
    }
    if a >= 0 {
        rem as i64
    } else {
        -(rem as i64)
    }
}

/// Integer square root: the largest `r` with `r * r <= x` (0 for `x <= 0`).
pub open spec fn isqrt(x: int) -> int
    decreases x,
{
    if x <= 0 {
        0
    } else {
        let r = isqrt(x - 1);
        if (r + 1) * (r + 1) <= x {
            r + 1
        } else {
            r
        }
    }
}

/// `isqrt(x)` squares to at most `x`, and is the largest such value.
pub proof fn lemma_isqrt_bounds(x: int)
    requires
        x >= 0,
    ensures
        isqrt(x) >= 0,
        isqrt(x) * isqrt(x) <= x,
        x < (isqrt(x) + 1) * (isqrt(x) + 1),
    decreases x,
{
    if x == 0 {
    } else {
        lemma_isqrt_bounds(x - 1);
        let r = isqrt(x - 1);
        if (r + 1) * (r + 1) <= x {
            assert((r + 2) * (r + 2) > (r + 1) * (r + 1)) by (nonlinear_arith)
                requires
                    r >= 0,
            ;
        }
    }
}

/// Any `r` within the square-root bracket equals `isqrt(x)`.
pub proof fn lemma_isqrt_unique(x: int, r: int)
    requires
        x >= 0,
        r >= 0,
        r * r <= x,
        x < (r + 1) * (r + 1),
    ensures
        r == isqrt(x),
{
    lemma_isqrt_bounds(x);
    let s = isqrt(x);
    if r < s {
        lemma_mul_inequality(r + 1, s, r + 1);
        lemma_mul_inequality(r + 1, s, s);
        assert(false);
    }
    if s < r {
        lemma_mul_inequality(s + 1, r, s + 1);
        lemma_mul_inequality(s + 1, r, r);
        assert(false);
    }
}

/// Square root of a scalar, in ticks: `isqrt(x * SCALE)` is the floor of
/// `sqrt(X) * SCALE` when `x` holds `X * SCALE`.
pub open spec fn scaled_sqrt(x: int) -> int {
    isqrt(x * SCALE)
}

/// Square root of a nonnegative scalar in ticks.
pub fn scaled_sqrt_i64(x: i64) -> (r: i64)
    requires
        x >= 0,
    ensures
        r as int == scaled_sqrt(x as int),
        r >= 0,
{
    proof {
        lemma_mul_upper_bound(x as int, i64::MAX as int, SCALE as int, SCALE as int);
    }
    let r = isqrt_u128((x as u128) * (SCALE as u128));
    proof {
        lemma_isqrt_bounds(x as int * SCALE as int);
        let s = isqrt(x as int * SCALE as int);
        assert(s < 0x8000_0000_0000) by (nonlinear_arith)
            requires
                s >= 0,
                s * s <= x as int * SCALE as int,
                0 <= x <= i64::MAX,
                SCALE == 1_000_000_000,
        ;
    }
    r as i64
}

/// Binary-search integer square root of a 128-bit value.
pub fn isqrt_u128(x: u128) -> (r: u64)
    ensures
        r as int == isqrt(x as int),
{
    let mut lo: u128 = 0;
    let mut hi: u128 = 0x1_0000_0000_0000_0000;
    proof {
        assert(hi * hi > x) by (nonlinear_arith)
            requires
                hi == 0x1_0000_0000_0000_0000,
                x <= u128::MAX,
        ;
    }
    while lo + 1 < hi
        invariant
            lo < hi,
            hi <= 0x1_0000_0000_0000_0000,
            lo * lo <= x as int,
            (hi * hi) > x as int,
        decreases hi - lo,
    {
        let mid = lo + (hi - lo) / 2;
        proof {
            lemma_mul_upper_bound(mid as int, 0xffff_ffff_ffff_ffff, mid as int, 0xffff_ffff_ffff_ffff);
        }
        if mid * mid <= x {
            lo = mid;
        } else {
            hi = mid;
        }
    }
    proof {
        lemma_isqrt_unique(x as int, lo as int);
    }
    lo as u64
}

} // verus!
