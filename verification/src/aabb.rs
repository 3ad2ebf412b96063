//! Axis-aligned bounding boxes and the slab test.
//!
//! The slab test is stated over exact rational comparisons. Along each axis
//! the ray enters the slab at `(min - origin) / d` and leaves it at
//! `(max - origin) / d` (swapped when `d` is negative); the box is hit when
//! the three axis intervals and the query interval `[t_min, t_max]` have a
//! common interior point, which is exactly "every lower bound is below every
//! upper bound". Each comparison of two rationals is done by cross
//! multiplication with positive denominators, so no division or rounding
//! occurs. An axis the ray is parallel to contributes no interval: it accepts
//! when the origin lies between the planes (boundary included) and rejects
//! otherwise, reproducing the accept/reject decisions IEEE infinities give
//! the same test over reals.

use vstd::prelude::*;
use vstd::arithmetic::mul::*;
use crate::fx::{SCALE, iabs};
use crate::ray::{Ray, ray_within};
use crate::vec3::{Vec3, Point3, vec_within, VEC_ARG_MAX};

verus! {

#[derive(Clone, Copy, PartialEq, Eq, Structural, Debug)]
pub struct AABB {
    pub minimum: Point3,
    pub maximum: Point3,
}

/// Component `i` of a vector, as a mathematical integer.
pub open spec fn vcomp(v: Vec3, i: int) -> int {
    if i == 0 {
        v.x as int
    } else if i == 1 {
        v.y as int
    } else {
        v.z as int
    }
}

/// `n1 / d1 < n2 / d2` for positive denominators, by cross multiplication.
pub open spec fn rat_lt(n1: int, d1: int, n2: int, d2: int) -> bool
    recommends
        d1 > 0,
        d2 > 0,
{
    n1 * d2 < n2 * d1
}

/// Numerator of the parameter at which the ray enters axis `i`'s slab.
pub open spec fn lo_num(bx: AABB, r: Ray, i: int) -> int {
    if vcomp(r.dir, i) > 0 {
        vcomp(bx.minimum, i) - vcomp(r.orig, i)
    } else {
        vcomp(r.orig, i) - vcomp(bx.maximum, i)
    }
}

/// Numerator of the parameter at which the ray leaves axis `i`'s slab.
pub open spec fn hi_num(bx: AABB, r: Ray, i: int) -> int {
    if vcomp(r.dir, i) > 0 {
        vcomp(bx.maximum, i) - vcomp(r.orig, i)
    } else {
        vcomp(r.orig, i) - vcomp(bx.minimum, i)
    }
}

/// Positive denominator of both parameters along axis `i`.
pub open spec fn slab_den(r: Ray, i: int) -> int {
    iabs(vcomp(r.dir, i))
}

/// Axis `i` alone accepts the query range: for a parallel ray, the origin is
/// between the planes; otherwise the axis interval opens before `t_max` and
/// closes after `t_min`.
pub open spec fn axis_ok(bx: AABB, r: Ray, i: int, a: int, b: int) -> bool {
    if vcomp(r.dir, i) == 0 {
        vcomp(bx.minimum, i) <= vcomp(r.orig, i) && vcomp(r.orig, i) <= vcomp(bx.maximum, i)
    } else {
        rat_lt(lo_num(bx, r, i), slab_den(r, i), b, SCALE as int) && rat_lt(
            a,
            SCALE as int,
            hi_num(bx, r, i),
            slab_den(r, i),
        )
    }
}

/// Axis `i`'s entry parameter lies before axis `j`'s exit parameter (only
/// meaningful when both rays' components are nonzero).
pub open spec fn pair_ok(bx: AABB, r: Ray, i: int, j: int) -> bool {
    (vcomp(r.dir, i) != 0 && vcomp(r.dir, j) != 0) ==> rat_lt(
        lo_num(bx, r, i),
        slab_den(r, i),
        hi_num(bx, r, j),
        slab_den(r, j),
    )
}

/// The slab test: the three axis intervals and `[a, b]` share an interior
/// point.
pub open spec fn aabb_hit_spec(bx: AABB, r: Ray, a: int, b: int) -> bool {
    &&& a < b
    &&& axis_ok(bx, r, 0, a, b)
    &&& axis_ok(bx, r, 1, a, b)
    &&& axis_ok(bx, r, 2, a, b)
    &&& pair_ok(bx, r, 0, 0)
    &&& pair_ok(bx, r, 0, 1)
    &&& pair_ok(bx, r, 0, 2)
    &&& pair_ok(bx, r, 1, 0)
    &&& pair_ok(bx, r, 1, 1)
    &&& pair_ok(bx, r, 1, 2)
    &&& pair_ok(bx, r, 2, 0)
    &&& pair_ok(bx, r, 2, 1)
    &&& pair_ok(bx, r, 2, 2)
}

/// The componentwise union: the smallest box containing both arguments.
pub open spec fn box_union_spec(a: AABB, b: AABB) -> AABB {
    AABB {
        minimum: Vec3 {
            x: if a.minimum.x <= b.minimum.x {
                a.minimum.x
            } else {
                b.minimum.x
            },
            y: if a.minimum.y <= b.minimum.y {
                a.minimum.y
            } else {
                b.minimum.y
            },
            z: if a.minimum.z <= b.minimum.z {
                a.minimum.z
            } else {
                b.minimum.z
            },
        },
        maximum: Vec3 {
            x: if a.maximum.x >= b.maximum.x {
                a.maximum.x
            } else {
                b.maximum.x
            },
            y: if a.maximum.y >= b.maximum.y {
                a.maximum.y
            } else {
                b.maximum.y
            },
            z: if a.maximum.z >= b.maximum.z {
                a.maximum.z
            } else {
                b.maximum.z
            },
        },
    }
}

/// The union contains both of its arguments.
pub proof fn lemma_box_union_contains(a: AABB, b: AABB)
    ensures
        box_contains(box_union_spec(a, b), a),
        box_contains(box_union_spec(a, b), b),
{
}

/// `outer` contains `inner`, componentwise.
pub open spec fn box_contains(outer: AABB, inner: AABB) -> bool {
    &&& outer.minimum.x <= inner.minimum.x
    &&& outer.minimum.y <= inner.minimum.y
    &&& outer.minimum.z <= inner.minimum.z
    &&& inner.maximum.x <= outer.maximum.x
    &&& inner.maximum.y <= outer.maximum.y
    &&& inner.maximum.z <= outer.maximum.z
}

/// The componentwise bound the slab test and box union accept.
pub open spec fn box_within(bx: AABB, cap: int) -> bool {
    vec_within(bx.minimum, cap) && vec_within(bx.maximum, cap)
}

/// Exact comparison of two rationals with positive denominators.
fn rat_lt_exec(n1: i64, d1: i64, n2: i64, d2: i64) -> (r: bool)
    ensures
        r == rat_lt(n1 as int, d1 as int, n2 as int, d2 as int),
{
    proof {
        lemma_i64_prod_fits(n1 as int, d2 as int);
        lemma_i64_prod_fits(n2 as int, d1 as int);
    }
    (n1 as i128) * (d2 as i128) < (n2 as i128) * (d1 as i128)
}

/// Any product of two `i64` values fits an `i128`.
proof fn lemma_i64_prod_fits(a: int, b: int)
    requires
        i64::MIN <= a <= i64::MAX,
        i64::MIN <= b <= i64::MAX,
    ensures
        i128::MIN <= a * b <= i128::MAX,
{
    assert(-0x4000_0000_0000_0000_0000_0000_0000_0000int <= a * b
        <= 0x4000_0000_0000_0000_0000_0000_0000_0000int) by (nonlinear_arith)
        requires
            -0x8000_0000_0000_0000int <= a <= 0x8000_0000_0000_0000int,
            -0x8000_0000_0000_0000int <= b <= 0x8000_0000_0000_0000int,
    ;
}

/// Entry and exit numerators and the denominator of one active axis.
fn axis_nums(mn: i64, mx: i64, o: i64, d: i64) -> (t: (i64, i64, i64))
    requires
        d != 0,
        iabs(mn as int) <= VEC_ARG_MAX as int,
        iabs(mx as int) <= VEC_ARG_MAX as int,
        iabs(o as int) <= VEC_ARG_MAX as int,
        iabs(d as int) <= VEC_ARG_MAX as int,
    ensures
        t.0 as int == if d > 0 {
            mn - o
        } else {
            o - mx
        },
        t.1 as int == if d > 0 {
            mx - o
        } else {
            o - mn
        },
        t.2 as int == iabs(d as int),
        t.2 > 0,
{
    if d > 0 {
        (mn - o, mx - o, d)
    } else {
        (o - mx, o - mn, -d)
    }
}

impl AABB {
    pub fn new(a: Point3, b: Point3) -> (r: AABB)
        ensures
            r == (AABB { minimum: a, maximum: b }),
    {
        AABB { minimum: a, maximum: b }
    }

    /// The smallest box containing both arguments: componentwise minimum of
    /// the minima and maximum of the maxima, so the result is exactly the
    /// union and contains each input.
    pub fn surrounding_box(box0: AABB, box1: AABB) -> (r: AABB)
        ensures
            r == box_union_spec(box0, box1),
            box_contains(r, box0),
            box_contains(r, box1),
    {
        let small = Vec3 {
            x: if box0.minimum.x <= box1.minimum.x {
                box0.minimum.x
            } else {
                box1.minimum.x
            },
            y: if box0.minimum.y <= box1.minimum.y {
                box0.minimum.y
            } else {
                box1.minimum.y
            },
            z: if box0.minimum.z <= box1.minimum.z {
                box0.minimum.z
            } else {
                box1.minimum.z
            },
        };
        let big = Vec3 {
            x: if box0.maximum.x >= box1.maximum.x {
                box0.maximum.x
            } else {
                box1.maximum.x
            },
            y: if box0.maximum.y >= box1.maximum.y {
                box0.maximum.y
            } else {
                box1.maximum.y
            },
            z: if box0.maximum.z >= box1.maximum.z {
                box0.maximum.z
            } else {
                box1.maximum.z
            },
        };
        AABB { minimum: small, maximum: big }
    }

    /// The slab test against the query range `[t_min, t_max]`.
    pub fn hit(&self, ray: &Ray, t_min: i64, t_max: i64) -> (res: bool)
        requires
            box_within(*self, VEC_ARG_MAX as int),
            ray_within(*ray),
        ensures
            res == aabb_hit_spec(*self, *ray, t_min as int, t_max as int),
    {
        if t_min >= t_max {
            return false;
        }
        // An axis the ray is parallel to accepts only between the planes.
        if ray.dir.x == 0 && !(self.minimum.x <= ray.orig.x && ray.orig.x <= self.maximum.x) {
            return false;
        }
        if ray.dir.y == 0 && !(self.minimum.y <= ray.orig.y && ray.orig.y <= self.maximum.y) {
            return false;
        }
        if ray.dir.z == 0 && !(self.minimum.z <= ray.orig.z && ray.orig.z <= self.maximum.z) {
            return false;
        }
        let mut ok = true;
        let ax = ray.dir.x != 0;
        let ay = ray.dir.y != 0;
        let az = ray.dir.z != 0;
        let (lox, hix, denx) = if ax {
            axis_nums(self.minimum.x, self.maximum.x, ray.orig.x, ray.dir.x)
        } else {
            (0, 0, 1)
        };
        let (loy, hiy, deny) = if ay {
            axis_nums(self.minimum.y, self.maximum.y, ray.orig.y, ray.dir.y)
        } else {
            (0, 0, 1)
        };
        let (loz, hiz, denz) = if az {
            axis_nums(self.minimum.z, self.maximum.z, ray.orig.z, ray.dir.z)
        } else {
            (0, 0, 1)
        };
        if ax {
            ok = ok && rat_lt_exec(lox, denx, t_max, SCALE) && rat_lt_exec(t_min, SCALE, hix, denx)
                && rat_lt_exec(lox, denx, hix, denx);
        }
        if ay {
            ok = ok && rat_lt_exec(loy, deny, t_max, SCALE) && rat_lt_exec(t_min, SCALE, hiy, deny)
                && rat_lt_exec(loy, deny, hiy, deny);
        }
        if az {
            ok = ok && rat_lt_exec(loz, denz, t_max, SCALE) && rat_lt_exec(t_min, SCALE, hiz, denz)
                && rat_lt_exec(loz, denz, hiz, denz);
        }
        if ax && ay {
            ok = ok && rat_lt_exec(lox, denx, hiy, deny) && rat_lt_exec(loy, deny, hix, denx);
        }
        if ax && az {
            ok = ok && rat_lt_exec(lox, denx, hiz, denz) && rat_lt_exec(loz, denz, hix, denx);
        }
        if ay && az {
            ok = ok && rat_lt_exec(loy, deny, hiz, denz) && rat_lt_exec(loz, denz, hiy, deny);
        }
        ok
    }
}

/// Enlarging the box can only keep the slab test passing: entry parameters
/// move earlier and exit parameters later on every axis.
pub proof fn lemma_aabb_hit_monotone(inner: AABB, outer: AABB, r: Ray, a: int, b: int)
    requires
        aabb_hit_spec(inner, r, a, b),
        box_contains(outer, inner),
    ensures
        aabb_hit_spec(outer, r, a, b),
{
    lemma_axis_monotone(inner, outer, r, 0, a, b);
    lemma_axis_monotone(inner, outer, r, 1, a, b);
    lemma_axis_monotone(inner, outer, r, 2, a, b);
    lemma_pair_monotone(inner, outer, r, 0, 0);
    lemma_pair_monotone(inner, outer, r, 0, 1);
    lemma_pair_monotone(inner, outer, r, 0, 2);
    lemma_pair_monotone(inner, outer, r, 1, 0);
    lemma_pair_monotone(inner, outer, r, 1, 1);
    lemma_pair_monotone(inner, outer, r, 1, 2);
    lemma_pair_monotone(inner, outer, r, 2, 0);
    lemma_pair_monotone(inner, outer, r, 2, 1);
    lemma_pair_monotone(inner, outer, r, 2, 2);
}

/// Growing the box widens one axis interval: its entry numerator can only
/// fall and its exit numerator can only rise.
proof fn lemma_nums_monotone(inner: AABB, outer: AABB, r: Ray, i: int)
    requires
        box_contains(outer, inner),
        0 <= i < 3,
        vcomp(r.dir, i) != 0,
    ensures
        lo_num(outer, r, i) <= lo_num(inner, r, i),
        hi_num(inner, r, i) <= hi_num(outer, r, i),
{
}

proof fn lemma_axis_monotone(inner: AABB, outer: AABB, r: Ray, i: int, a: int, b: int)
    requires
        box_contains(outer, inner),
        0 <= i < 3,
        axis_ok(inner, r, i, a, b),
    ensures
        axis_ok(outer, r, i, a, b),
{
    if vcomp(r.dir, i) != 0 {
        lemma_nums_monotone(inner, outer, r, i);
        lemma_mul_inequality(lo_num(outer, r, i), lo_num(inner, r, i), SCALE as int);
        lemma_mul_inequality(hi_num(inner, r, i), hi_num(outer, r, i), SCALE as int);
    }
}

proof fn lemma_pair_monotone(inner: AABB, outer: AABB, r: Ray, i: int, j: int)
    requires
        box_contains(outer, inner),
        0 <= i < 3,
        0 <= j < 3,
        pair_ok(inner, r, i, j),
    ensures
        pair_ok(outer, r, i, j),
{
    if vcomp(r.dir, i) != 0 && vcomp(r.dir, j) != 0 {
        lemma_nums_monotone(inner, outer, r, i);
        lemma_nums_monotone(inner, outer, r, j);
        lemma_mul_inequality(lo_num(outer, r, i), lo_num(inner, r, i), slab_den(r, j));
        lemma_mul_inequality(hi_num(inner, r, j), hi_num(outer, r, j), slab_den(r, i));
    }
}

} // verus!
