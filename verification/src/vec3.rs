//! Three-component fixed-point vectors, used for points, directions and
//! colors. Every operation's contract gives the exact integer result, built
//! from the scalar spec functions of `fx`.

use vstd::prelude::*;
use vstd::arithmetic::div_mod::*;
use crate::fx::{
    SCALE, iabs, smul, sdiv, ssqrt, sqrt_floor, is_sqrt_floor, fmul, fdiv, fsqrt,
    lemma_smul_bound, lemma_tdiv_bound, lemma_tdiv_nonneg, lemma_sqrt_floor_unique,
};

verus! {

#[derive(Clone, Copy, PartialEq, Eq, Structural, Debug)]
pub struct Vec3 {
    pub x: i64,
    pub y: i64,
    pub z: i64,
}

pub type Point3 = Vec3;

pub type Color = Vec3;

/// Componentwise magnitude bound; the overflow preconditions of all vector
/// arithmetic are stated with it.
pub open spec fn vec_within(v: Vec3, cap: int) -> bool {
    iabs(v.x as int) <= cap && iabs(v.y as int) <= cap && iabs(v.z as int) <= cap
}

/// The truncating dot product: each componentwise product is rescaled and
/// truncated before the terms are summed.
pub open spec fn sv_dot(a: Vec3, b: Vec3) -> int {
    smul(a.x as int, b.x as int) + smul(a.y as int, b.y as int) + smul(a.z as int, b.z as int)
}

/// Largest componentwise magnitude the dot product and cross product accept.
pub const VEC_ARG_MAX: i64 = 0x40_0000_0000;

/// Componentwise magnitude bound on what `normalize` returns: slightly above
/// one unit, since the floor square root can undershoot the true length.
pub const UNIT_MAX: i64 = 2 * 65536 + 256;

impl Vec3 {
    pub fn new(x: i64, y: i64, z: i64) -> (r: Vec3)
        ensures
            r == (Vec3 { x, y, z }),
    {
        Vec3 { x, y, z }
    }

    pub fn zero() -> (r: Vec3)
        ensures
            r == (Vec3 { x: 0, y: 0, z: 0 }),
    {
        Vec3 { x: 0, y: 0, z: 0 }
    }

    pub fn x(&self) -> (r: i64)
        ensures
            r == self.x,
    {
        self.x
    }

    pub fn y(&self) -> (r: i64)
        ensures
            r == self.y,
    {
        self.y
    }

    pub fn z(&self) -> (r: i64)
        ensures
            r == self.z,
    {
        self.z
    }

    pub fn add(self, o: Vec3) -> (r: Vec3)
        requires
            i64::MIN <= self.x + o.x <= i64::MAX,
            i64::MIN <= self.y + o.y <= i64::MAX,
            i64::MIN <= self.z + o.z <= i64::MAX,
        ensures
            r.x == self.x + o.x,
            r.y == self.y + o.y,
            r.z == self.z + o.z,
    {
        Vec3 { x: self.x + o.x, y: self.y + o.y, z: self.z + o.z }
    }

    pub fn sub(self, o: Vec3) -> (r: Vec3)
        requires
            i64::MIN <= self.x - o.x <= i64::MAX,
            i64::MIN <= self.y - o.y <= i64::MAX,
            i64::MIN <= self.z - o.z <= i64::MAX,
        ensures
            r.x == self.x - o.x,
            r.y == self.y - o.y,
            r.z == self.z - o.z,
    {
        Vec3 { x: self.x - o.x, y: self.y - o.y, z: self.z - o.z }
    }

    pub fn neg(self) -> (r: Vec3)
        requires
            self.x > i64::MIN,
            self.y > i64::MIN,
            self.z > i64::MIN,
        ensures
            r.x == -self.x,
            r.y == -self.y,
            r.z == -self.z,
    {
        Vec3 { x: -self.x, y: -self.y, z: -self.z }
    }

    /// Scale by a fixed-point scalar (the vector-times-scalar product).
    pub fn scale(self, s: i64) -> (r: Vec3)
        requires
            iabs(smul(self.x as int, s as int)) <= i64::MAX,
            iabs(smul(self.y as int, s as int)) <= i64::MAX,
            iabs(smul(self.z as int, s as int)) <= i64::MAX,
        ensures
            r.x == smul(self.x as int, s as int),
            r.y == smul(self.y as int, s as int),
            r.z == smul(self.z as int, s as int),
    {
        Vec3 { x: fmul(self.x, s), y: fmul(self.y, s), z: fmul(self.z, s) }
    }

    /// Componentwise product (attenuation of one color by another).
    pub fn comp_mul(self, o: Vec3) -> (r: Vec3)
        requires
            iabs(smul(self.x as int, o.x as int)) <= i64::MAX,
            iabs(smul(self.y as int, o.y as int)) <= i64::MAX,
            iabs(smul(self.z as int, o.z as int)) <= i64::MAX,
        ensures
            r.x == smul(self.x as int, o.x as int),
            r.y == smul(self.y as int, o.y as int),
            r.z == smul(self.z as int, o.z as int),
    {
        Vec3 { x: fmul(self.x, o.x), y: fmul(self.y, o.y), z: fmul(self.z, o.z) }
    }

    /// Divide by a fixed-point scalar.
    pub fn div_scale(self, s: i64) -> (r: Vec3)
        requires
            s != 0,
            iabs(sdiv(self.x as int, s as int)) <= i64::MAX,
            iabs(sdiv(self.y as int, s as int)) <= i64::MAX,
            iabs(sdiv(self.z as int, s as int)) <= i64::MAX,
        ensures
            r.x == sdiv(self.x as int, s as int),
            r.y == sdiv(self.y as int, s as int),
            r.z == sdiv(self.z as int, s as int),
    {
        Vec3 { x: fdiv(self.x, s), y: fdiv(self.y, s), z: fdiv(self.z, s) }
    }

    pub fn length_squared(self) -> (r: i64)
        requires
            vec_within(self, VEC_ARG_MAX as int),
        ensures
            r == sv_dot(self, self),
            r >= 0,
    {
        dot(&self, &self)
    }

    pub fn length(self) -> (r: i64)
        requires
            vec_within(self, VEC_ARG_MAX as int),
        ensures
            r == ssqrt(sv_dot(self, self)),
            r >= 0,
    {
        let sq = self.length_squared();
        fsqrt(sq)
    }

    /// The unit vector along `self`, or the zero vector when the fixed-point
    /// length underflows to zero (a vector shorter than one resolution step).
    pub fn normalize(self) -> (r: Vec3)
        requires
            vec_within(self, VEC_ARG_MAX as int),
        ensures
            r == normalize_spec(self),
            vec_within(r, UNIT_MAX as int),
    {
        let l = self.length();
        if l == 0 {
            Vec3 { x: 0, y: 0, z: 0 }
        } else {
            proof {
                lemma_square_term_nonneg(self.x as int);
                lemma_square_term_nonneg(self.y as int);
                lemma_square_term_nonneg(self.z as int);
                lemma_normalize_bound(self.x as int, sv_dot(self, self), l as int);
                lemma_normalize_bound(self.y as int, sv_dot(self, self), l as int);
                lemma_normalize_bound(self.z as int, sv_dot(self, self), l as int);
            }
            Vec3 { x: fdiv(self.x, l), y: fdiv(self.y, l), z: fdiv(self.z, l) }
        }
    }

    /// Whether every component is within the near-zero epsilon, the
    /// cancellation test the diffuse scatter falls back on.
    pub fn near_zero(self) -> (r: bool)
        ensures
            r == near_zero_spec(self),
    {
        self.x > -NEAR_EPS && self.x < NEAR_EPS && self.y > -NEAR_EPS && self.y < NEAR_EPS
            && self.z > -NEAR_EPS && self.z < NEAR_EPS
    }
}

/// The near-zero threshold: a quarter of a thousandth of a unit.
pub const NEAR_EPS: i64 = 16;

pub open spec fn near_zero_spec(v: Vec3) -> bool {
    iabs(v.x as int) < NEAR_EPS && iabs(v.y as int) < NEAR_EPS && iabs(v.z as int) < NEAR_EPS
}

pub open spec fn normalize_spec(v: Vec3) -> Vec3 {
    let l = ssqrt(sv_dot(v, v));
    if l == 0 {
        Vec3 { x: 0, y: 0, z: 0 }
    } else {
        Vec3 {
            x: sdiv(v.x as int, l) as i64,
            y: sdiv(v.y as int, l) as i64,
            z: sdiv(v.z as int, l) as i64,
        }
    }
}

/// One square term of the truncating dot product bounds the length estimate
/// from below; from that, each component of the normalized vector is within
/// `UNIT_MAX`, and the quotient fits an `i64`.
proof fn lemma_normalize_bound(x: int, dd: int, l: int)
    requires
        iabs(x) <= VEC_ARG_MAX as int,
        dd >= smul(x, x),
        dd >= 0,
        l == ssqrt(dd),
        l > 0,
    ensures
        iabs(sdiv(x, l)) <= UNIT_MAX as int,
{
    let s = SCALE as int;
    assert(x * x >= 0) by (nonlinear_arith);
    // The truncated square term recovers x * x up to one scale unit.
    assert(s * smul(x, x) > x * x - s) by {
        lemma_tdiv_nonneg(x * x, s);
        lemma_fundamental_div_mod(x * x, s);
        lemma_mod_bound(x * x, s);
    };
    // l is the floor square root of dd * SCALE.
    assert(is_sqrt_floor(dd * s, l)) by {
        lemma_sqrt_floor_unique_converse(dd * s, l);
    };
    assert((l + 1) * (l + 1) > dd * s);
    // dd >= 1 since l > 0, so l >= 256.
    assert(dd >= 1) by {
        if dd == 0 {
            assert(is_sqrt_floor(0, 0));
            lemma_sqrt_floor_unique(0, 0);
        }
    };
    assert(l >= 256) by {
        if l <= 255 {
            assert((l + 1) * (l + 1) <= 65536) by (nonlinear_arith)
                requires
                    0 < l <= 255,
            ;
            assert(dd * s >= s) by (nonlinear_arith)
                requires
                    dd >= 1,
                    s == 65536,
            ;
        }
    };
    // x * x is at most (l + 257)^2.
    assert(x * x <= (l + 257) * (l + 257)) by (nonlinear_arith)
        requires
            s == 65536,
            s * smul(x, x) > x * x - s,
            dd >= smul(x, x),
            (l + 1) * (l + 1) > dd * s,
            l >= 256,
    ;
    assert(iabs(x) <= l + 257) by (nonlinear_arith)
        requires
            x * x <= (l + 257) * (l + 257),
            l > 0,
    ;
    // Hence the quotient is at most 2 * SCALE + 256.
    assert(iabs(x) * s <= (UNIT_MAX as int) * l + (l - 1)) by (nonlinear_arith)
        requires
            iabs(x) <= l + 257,
            l >= 256,
            s == 65536,
            UNIT_MAX == 2 * 65536 + 256,
    ;
    lemma_tdiv_bound(x * s, l, iabs(x) * s);
    assert(iabs(x * s) == iabs(x) * s) by (nonlinear_arith)
        requires
            s > 0,
    ;
    assert((iabs(x) * s) / l <= UNIT_MAX as int) by {
        lemma_div_multiples_vanish_fancy(UNIT_MAX as int, l - 1, l);
        lemma_div_is_ordered(iabs(x) * s, (UNIT_MAX as int) * l + (l - 1), l);
    };
}

/// The defining property of `sqrt_floor` holds of its value on nonnegative
/// input (the root exists, so the choice operator returns a witness).
pub proof fn lemma_sqrt_floor_unique_converse(n: int, l: int)
    requires
        n >= 0,
        l == sqrt_floor(n),
    ensures
        is_sqrt_floor(n, l),
{
    let r = sqrt_floor_witness(n);
    lemma_sqrt_floor_unique(n, r);
}

/// A witness that every nonnegative integer has a floor square root.
proof fn sqrt_floor_witness(n: int) -> (r: int)
    requires
        n >= 0,
    ensures
        is_sqrt_floor(n, r),
    decreases n,
{
    if n == 0 {
        assert(is_sqrt_floor(0, 0)) by (nonlinear_arith);
        0
    } else {
        let p = sqrt_floor_witness(n - 1);
        if (p + 1) * (p + 1) <= n {
            assert(n < ((p + 1) + 1) * ((p + 1) + 1)) by (nonlinear_arith)
                requires
                    n - 1 < (p + 1) * (p + 1),
                    p >= 0,
            ;
            assert(is_sqrt_floor(n, p + 1));
            p + 1
        } else {
            assert(is_sqrt_floor(n, p));
            p
        }
    }
}

/// The truncating dot product of two bounded vectors.
pub fn dot(u: &Vec3, v: &Vec3) -> (r: i64)
    requires
        vec_within(*u, VEC_ARG_MAX as int),
        vec_within(*v, VEC_ARG_MAX as int),
    ensures
        r == sv_dot(*u, *v),
        u == v ==> r >= 0,
{
    proof {
        let cap = VEC_ARG_MAX as int;
        lemma_smul_bound(u.x as int, v.x as int, cap, cap);
        lemma_smul_bound(u.y as int, v.y as int, cap, cap);
        lemma_smul_bound(u.z as int, v.z as int, cap, cap);
        assert(cap * cap / (SCALE as int) < 0x2000_0000_0000_0000int) by (nonlinear_arith)
            requires
                cap == 0x40_0000_0000int,
                SCALE == 65536,
        ;
        if u == v {
            lemma_square_term_nonneg(u.x as int);
            lemma_square_term_nonneg(u.y as int);
            lemma_square_term_nonneg(u.z as int);
        }
    }
    fmul(u.x, v.x) + fmul(u.y, v.y) + fmul(u.z, v.z)
}

/// A truncated square term is nonnegative.
pub proof fn lemma_square_term_nonneg(x: int)
    ensures
        smul(x, x) >= 0,
        smul(x, x) <= x * x,
{
    assert(x * x >= 0) by (nonlinear_arith);
    lemma_tdiv_nonneg(x * x, SCALE as int);
    lemma_div_is_ordered_by_denominator(x * x, 1, SCALE as int);
    lemma_div_by_multiple(x * x, 1);
}

/// The truncating cross product.
pub fn cross(u: &Vec3, v: &Vec3) -> (r: Vec3)
    requires
        vec_within(*u, VEC_ARG_MAX as int),
        vec_within(*v, VEC_ARG_MAX as int),
    ensures
        r.x == smul(u.y as int, v.z as int) - smul(u.z as int, v.y as int),
        r.y == smul(u.z as int, v.x as int) - smul(u.x as int, v.z as int),
        r.z == smul(u.x as int, v.y as int) - smul(u.y as int, v.x as int),
    {
    proof {
        let cap = VEC_ARG_MAX as int;
        lemma_smul_bound(u.y as int, v.z as int, cap, cap);
        lemma_smul_bound(u.z as int, v.y as int, cap, cap);
        lemma_smul_bound(u.z as int, v.x as int, cap, cap);
        lemma_smul_bound(u.x as int, v.z as int, cap, cap);
        lemma_smul_bound(u.x as int, v.y as int, cap, cap);
        lemma_smul_bound(u.y as int, v.x as int, cap, cap);
        assert(cap * cap / (SCALE as int) < 0x2000_0000_0000_0000int) by (nonlinear_arith)
            requires
                cap == 0x40_0000_0000int,
                SCALE == 65536,
        ;
    }
    Vec3 {
        x: fmul(u.y, v.z) - fmul(u.z, v.y),
        y: fmul(u.z, v.x) - fmul(u.x, v.z),
        z: fmul(u.x, v.y) - fmul(u.y, v.x),
    }
}

} // verus!
