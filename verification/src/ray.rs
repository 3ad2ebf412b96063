//! Rays: an origin, a direction, and the timestamp the ray samples the scene
//! at (moving primitives interpolate their position by it).

use vstd::prelude::*;
use crate::fx::{iabs, smul, lemma_smul_bound};
use crate::vec3::{Vec3, Point3, vec_within};

verus! {

/// Componentwise bound on ray origins and directions the tracer works in.
pub const DIR_MAX: i64 = 0x2000_0000;

/// Bound on ray parameters; the stand-in for an unbounded upper range.
pub const T_MAX: i64 = 0x100_0000_0000;

/// Componentwise bound on points a bounded ray reaches at a bounded
/// parameter.
pub const POINT_MAX: i64 = 0x40_0000_0000_0000;

#[derive(Clone, Copy, PartialEq, Eq, Structural, Debug)]
pub struct Ray {
    pub orig: Point3,
    pub dir: Vec3,
    pub time: i64,
}

/// The numeric domain rays are traced in: origin and direction are
/// componentwise within `DIR_MAX`, the timestamp within `T_MAX`.
pub open spec fn ray_within(r: Ray) -> bool {
    vec_within(r.orig, DIR_MAX as int) && vec_within(r.dir, DIR_MAX as int) && iabs(
        r.time as int,
    ) <= T_MAX as int
}

/// The point a ray reaches at parameter `t`, componentwise.
pub open spec fn ray_at_spec(r: Ray, t: int) -> Vec3 {
    Vec3 {
        x: (r.orig.x + smul(t, r.dir.x as int)) as i64,
        y: (r.orig.y + smul(t, r.dir.y as int)) as i64,
        z: (r.orig.z + smul(t, r.dir.z as int)) as i64,
    }
}

impl Ray {
    pub fn new(origin: Point3, direction: Vec3, time: i64) -> (r: Ray)
        ensures
            r == (Ray { orig: origin, dir: direction, time }),
    {
        Ray { orig: origin, dir: direction, time }
    }

    pub fn at(&self, t: i64) -> (p: Point3)
        requires
            ray_within(*self),
            iabs(t as int) <= T_MAX as int,
        ensures
            p == ray_at_spec(*self, t as int),
            vec_within(p, POINT_MAX as int),
    {
        proof {
            lemma_at_bound(t as int, self.dir.x as int);
            lemma_at_bound(t as int, self.dir.y as int);
            lemma_at_bound(t as int, self.dir.z as int);
        }
        Vec3 {
            x: self.orig.x + crate::fx::fmul(t, self.dir.x),
            y: self.orig.y + crate::fx::fmul(t, self.dir.y),
            z: self.orig.z + crate::fx::fmul(t, self.dir.z),
        }
    }

    /// Whether the ray lies in the numeric domain the tracer works in.
    pub fn in_domain(&self) -> (r: bool)
        ensures
            r == ray_within(*self),
    {
        self.orig.x >= -DIR_MAX && self.orig.x <= DIR_MAX && self.orig.y >= -DIR_MAX && self.orig.y
            <= DIR_MAX && self.orig.z >= -DIR_MAX && self.orig.z <= DIR_MAX && self.dir.x
            >= -DIR_MAX && self.dir.x <= DIR_MAX && self.dir.y >= -DIR_MAX && self.dir.y <= DIR_MAX
            && self.dir.z >= -DIR_MAX && self.dir.z <= DIR_MAX && self.time >= -T_MAX && self.time
            <= T_MAX
    }

    pub fn origin(&self) -> (r: Point3)
        ensures
            r == self.orig,
    {
        self.orig
    }

    pub fn direction(&self) -> (r: Vec3)
        ensures
            r == self.dir,
    {
        self.dir
    }

    pub fn time(&self) -> (r: i64)
        ensures
            r == self.time,
    {
        self.time
    }
}

/// A bounded parameter times a bounded direction component stays well inside
/// the point domain.
proof fn lemma_at_bound(t: int, d: int)
    requires
        iabs(t) <= T_MAX as int,
        iabs(d) <= DIR_MAX as int,
    ensures
        iabs(smul(t, d)) <= (T_MAX as int) * (DIR_MAX as int) / (crate::fx::SCALE as int),
        iabs(smul(t, d)) < POINT_MAX as int - DIR_MAX as int,
{
    lemma_smul_bound(t, d, T_MAX as int, DIR_MAX as int);
    assert((T_MAX as int) * (DIR_MAX as int) / (crate::fx::SCALE as int) < POINT_MAX as int
        - DIR_MAX as int) by (nonlinear_arith)
        requires
            T_MAX == 0x100_0000_0000i64,
            DIR_MAX == 0x2000_0000i64,
            POINT_MAX == 0x40_0000_0000_0000i64,
            crate::fx::SCALE == 65536i64,
    ;
}

} // verus!
