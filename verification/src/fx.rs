//! Fixed-point scalars.
//!
//! A scalar is an `i64` holding the real value times `SCALE`. Multiplication
//! and division rescale and truncate toward zero, mirroring what the hardware
//! would do; the spec functions `smul`, `sdiv` and `tdiv` state the result of
//! each operation exactly, so every contract built on them is exact integer
//! arithmetic.

use vstd::prelude::*;
use vstd::arithmetic::div_mod::*;

verus! {

/// Number of fixed-point units per real unit.
pub const SCALE: i64 = 65536;

/// Absolute value of a mathematical integer.
pub open spec fn iabs(a: int) -> int {
    if a < 0 {
        -a
    } else {
        a
    }
}

/// Truncating (round-toward-zero) division, the semantics of hardware
/// integer division.
pub open spec fn tdiv(a: int, b: int) -> int
    recommends
        b != 0,
{
    if (a < 0) == (b < 0) {
        iabs(a) / iabs(b)
    } else {
        -(iabs(a) / iabs(b))
    }
}

/// Fixed-point product: the exact product, rescaled and truncated.
pub open spec fn smul(a: int, b: int) -> int {
    tdiv(a * b, SCALE as int)
}

/// Fixed-point quotient: the dividend is prescaled, then divided truncating.
pub open spec fn sdiv(a: int, b: int) -> int
    recommends
        b != 0,
{
    tdiv(a * SCALE, b)
}

/// Floor of the square root of a nonnegative integer.
pub open spec fn is_sqrt_floor(n: int, r: int) -> bool {
    0 <= r && r * r <= n && n < (r + 1) * (r + 1)
}

/// Fixed-point square root: `ssqrt(v)` is the floor of the square root of
/// `v * SCALE`, which is the fixed-point representation of the real square
/// root of `v / SCALE`.
pub open spec fn ssqrt(v: int) -> int {
    sqrt_floor(v * SCALE)
}

pub open spec fn sqrt_floor(n: int) -> int {
    choose|r: int| is_sqrt_floor(n, r)
}

pub proof fn lemma_sqrt_floor_unique(n: int, r: int)
    requires
        is_sqrt_floor(n, r),
    ensures
        sqrt_floor(n) == r,
{
    let s = choose|x: int| is_sqrt_floor(n, x);
    assert(is_sqrt_floor(n, s));
    if s < r {
        assert((s + 1) * (s + 1) <= r * r) by (nonlinear_arith)
            requires
                0 <= s,
                s < r,
        ;
    }
    if r < s {
        assert((r + 1) * (r + 1) <= s * s) by (nonlinear_arith)
            requires
                0 <= r,
                r < s,
        ;
    }
}

/// Truncating division agrees with Euclidean division on a nonnegative
/// dividend and positive divisor.
pub proof fn lemma_tdiv_nonneg(a: int, b: int)
    requires
        a >= 0,
        b > 0,
    ensures
        tdiv(a, b) == a / b,
{
}

/// The magnitude of a truncated quotient is bounded by the quotient of the
/// magnitude bounds.
pub proof fn lemma_tdiv_bound(a: int, b: int, cap: int)
    requires
        b != 0,
        iabs(a) <= cap,
    ensures
        iabs(tdiv(a, b)) <= cap / iabs(b),
        iabs(tdiv(a, b)) <= cap,
{
    lemma_div_is_ordered(iabs(a), cap, iabs(b));
    lemma_div_is_ordered_by_denominator(cap, 1, iabs(b));
    lemma_div_by_multiple(cap, 1);
}

/// Truncating division by a positive divisor is monotone in the dividend.
pub proof fn lemma_tdiv_ordered(a: int, b: int, d: int)
    requires
        a <= b,
        d > 0,
    ensures
        tdiv(a, d) <= tdiv(b, d),
{
    if a >= 0 {
        lemma_div_is_ordered(a, b, d);
    } else if b < 0 {
        lemma_div_is_ordered(-b, -a, d);
    } else {
        lemma_div_pos_is_pos(-a, d);
        lemma_div_pos_is_pos(b, d);
    }
}

/// Magnitude bound on an exact product from bounds on its factors.
pub proof fn lemma_prod_bound(a: int, b: int, ca: int, cb: int)
    requires
        iabs(a) <= ca,
        iabs(b) <= cb,
    ensures
        iabs(a * b) <= ca * cb,
{
    assert(iabs(a * b) <= ca * cb) by (nonlinear_arith)
        requires
            iabs(a) <= ca,
            iabs(b) <= cb,
    ;
}

/// The bound on a fixed-point product that callers use to rule overflow out.
pub proof fn lemma_smul_bound(a: int, b: int, ca: int, cb: int)
    requires
        iabs(a) <= ca,
        iabs(b) <= cb,
    ensures
        iabs(smul(a, b)) <= ca * cb / (SCALE as int),
        iabs(smul(a, b)) <= ca * cb,
{
    assert(iabs(a * b) <= ca * cb) by (nonlinear_arith)
        requires
            iabs(a) <= ca,
            iabs(b) <= cb,
    ;
    lemma_tdiv_bound(a * b, SCALE as int, ca * cb);
    lemma_div_is_ordered_by_denominator(ca * cb, 1, SCALE as int);
    lemma_div_by_multiple(ca * cb, 1);
}

/// Unsigned 128-bit division, the primitive the signed one is built from.
fn udiv128(a: u128, b: u128) -> (q: u128)
    requires
        b > 0,
    ensures
        q == a as int / b as int,
{
    a / b
}

/// Magnitude of an `i128`, as a `u128` (total, even at the minimum value).
fn uabs128(a: i128) -> (r: u128)
    ensures
        r == iabs(a as int),
{
    if a >= 0 {
        a as u128
    } else {
        ((-(a + 1)) as u128) + 1
    }
}

/// Truncating division on `i128`, as hardware would do it.
pub fn tdiv128(a: i128, b: i128) -> (q: i128)
    requires
        b != 0,
        a > i128::MIN,
    ensures
        q as int == tdiv(a as int, b as int),
{
    let ua = uabs128(a);
    let ub = uabs128(b);
    let uq = udiv128(ua, ub);
    proof {
        lemma_div_is_ordered_by_denominator(ua as int, 1, ub as int);
        lemma_div_by_multiple(ua as int, 1);
    }
    if (a < 0) == (b < 0) {
        uq as i128
    } else {
        -(uq as i128)
    }
}

/// Fixed-point multiplication: exact product in 128 bits, rescaled and
/// truncated toward zero.
pub fn fmul(a: i64, b: i64) -> (r: i64)
    requires
        iabs(smul(a as int, b as int)) <= i64::MAX,
    ensures
        r as int == smul(a as int, b as int),
{
    proof {
        assert(-0x4000_0000_0000_0000_0000_0000_0000_0000int <= (a as int) * (b as int)
            <= 0x4000_0000_0000_0000_0000_0000_0000_0000int) by (nonlinear_arith)
            requires
                -0x8000_0000_0000_0000int <= a as int <= 0x8000_0000_0000_0000int,
                -0x8000_0000_0000_0000int <= b as int <= 0x8000_0000_0000_0000int,
        ;
    }
    let p = (a as i128) * (b as i128);
    let q = tdiv128(p, SCALE as i128);
    q as i64
}

/// Fixed-point division: the dividend is prescaled in 128 bits, then divided
/// truncating toward zero.
pub fn fdiv(a: i64, b: i64) -> (r: i64)
    requires
        b != 0,
        iabs(sdiv(a as int, b as int)) <= i64::MAX,
    ensures
        r as int == sdiv(a as int, b as int),
{
    let p = (a as i128) * (SCALE as i128);
    let q = tdiv128(p, b as i128);
    q as i64
}

/// Floor of the square root of a `u128`, by binary search on the root.
pub fn isqrt128(n: u128) -> (r: u128)
    ensures
        is_sqrt_floor(n as int, r as int),
{
    let mut lo: u128 = 0;
    let mut hi: u128 = 0x1_0000_0000_0000_0000u128;
    assert((n as int) < (hi as int) * (hi as int)) by (nonlinear_arith)
        requires
            hi == 0x1_0000_0000_0000_0000u128,
            n <= u128::MAX,
    ;
    while lo + 1 < hi
        invariant
            lo < hi,
            hi <= 0x1_0000_0000_0000_0000u128,
            (lo as int) * (lo as int) <= n as int,
            (n as int) < (hi as int) * (hi as int),
        decreases hi - lo,
    {
        let mid = lo + (hi - lo) / 2;
        assert(mid * mid <= u128::MAX) by (nonlinear_arith)
            requires
                mid < 0x1_0000_0000_0000_0000u128,
        ;
        if mid * mid <= n {
            lo = mid;
        } else {
            hi = mid;
        }
    }
    lo
}

/// Fixed-point square root of a nonnegative scalar.
pub fn fsqrt(v: i64) -> (r: i64)
    requires
        v >= 0,
    ensures
        r as int == ssqrt(v as int),
        is_sqrt_floor(v * SCALE, r as int),
        0 <= r,
        r * r <= v * SCALE,
        v <= SCALE ==> r <= SCALE,
{
    proof {
        assert((v as int) * (SCALE as int) < 0x1_0000_0000_0000_0000_0000_0000int)
            by (nonlinear_arith)
            requires
                0 <= v as int <= 0x8000_0000_0000_0000int,
                SCALE == 65536,
        ;
    }
    let n = (v as u128) * (SCALE as u128);
    let rq = isqrt128(n);
    proof {
        lemma_sqrt_floor_unique(n as int, rq as int);
        assert(rq < 0x1_0000_0000_0000u128) by (nonlinear_arith)
            requires
                (rq as int) * (rq as int) <= n as int,
                n < 0x1_0000_0000_0000_0000_0000_0000u128,
                rq >= 0,
        ;
        if v <= SCALE {
            assert(rq <= SCALE as u128) by (nonlinear_arith)
                requires
                    (rq as int) * (rq as int) <= n as int,
                    n == (v as int) * (SCALE as int),
                    0 <= v <= SCALE,
                    SCALE == 65536,
                    rq >= 0,
            ;
        }
    }
    rq as i64
}

/// Flooring division on `i128` (the rounding of the mathematical `/` on a
/// positive divisor): one below the truncated quotient whenever a negative
/// dividend does not divide evenly.
pub fn floor_div128(a: i128, b: i128) -> (q: i128)
    requires
        0 < b,
        iabs(a as int) <= 0x1_0000_0000_0000_0000_0000_0000_0000int,
        b <= 0x1_0000_0000_0000_0000int,
    ensures
        q as int == a as int / b as int,
{
    let t = tdiv128(a, b);
    proof {
        lemma_tdiv_bound(a as int, b as int, iabs(a as int));
        lemma_prod_bound(t as int, b as int, iabs(a as int) / (b as int), b as int);
        lemma_fundamental_div_mod(iabs(a as int), b as int);
        lemma_mod_bound(iabs(a as int), b as int);
        assert((iabs(a as int) / (b as int)) * (b as int) <= iabs(a as int)) by (nonlinear_arith)
            requires
                b > 0,
                iabs(a as int) == (b as int) * (iabs(a as int) / (b as int)) + iabs(a as int) % (
                b as int),
                iabs(a as int) % (b as int) >= 0,
        ;
        lemma_fundamental_div_mod(a as int, b as int);
        lemma_mod_bound(a as int, b as int);
        if a < 0 {
            lemma_fundamental_div_mod(-a as int, b as int);
            lemma_mod_bound(-a as int, b as int);
            let qq = (-a as int) / (b as int);
            let rr = (-a as int) % (b as int);
            assert(t as int == -qq);
            assert((-qq) * (b as int) == -(qq * (b as int))) by (nonlinear_arith);
            if rr == 0 {
                assert(a as int == (-qq) * (b as int) + 0) by (nonlinear_arith)
                    requires
                        -a as int == qq * (b as int) + rr,
                        rr == 0,
                ;
                lemma_fundamental_div_mod_converse(a as int, b as int, -qq, 0);
            } else {
                assert(a as int == (-qq - 1) * (b as int) + (b - rr)) by (nonlinear_arith)
                    requires
                        -a as int == qq * (b as int) + rr,
                ;
                lemma_fundamental_div_mod_converse(a as int, b as int, -qq - 1, b - rr);
            }
        }
    }
    if a < 0 && t * b != a {
        t - 1
    } else {
        t
    }
}

/// Clamp a scalar into a closed interval.
pub fn fclamp(v: i64, lo: i64, hi: i64) -> (r: i64)
    requires
        lo <= hi,
    ensures
        r == sclamp(v as int, lo as int, hi as int),
        lo <= r <= hi,
{
    if v < lo {
        lo
    } else if v > hi {
        hi
    } else {
        v
    }
}

pub open spec fn sclamp(v: int, lo: int, hi: int) -> int {
    if v < lo {
        lo
    } else if v > hi {
        hi
    } else {
        v
    }
}

/// The smaller of two scalars.
pub fn fmin(a: i64, b: i64) -> (r: i64)
    ensures
        r == if a as int <= b as int { a as int } else { b as int },
{
    if a <= b {
        a
    } else {
        b
    }
}

} // verus!
