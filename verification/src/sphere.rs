//! Spheres and moving spheres, and their ray intersection.
//!
//! The intersection solves the quadratic `qa*t^2 + qb*t + qc = 0` whose
//! coefficients are exact 128-bit integers (the products are never rescaled,
//! so nothing is lost before the root is extracted): `qa = d.d`,
//! `qb = 2 oc.d`, `qc = oc.oc - r^2` with `oc = origin - center`. A negative
//! discriminant is a miss; otherwise the smaller root is taken, the larger
//! one if the smaller lies outside the query range, and a miss if both do.
//! The roots themselves are rescaled to fixed point by one truncating
//! division, the only rounding in the whole computation.

use vstd::prelude::*;
use crate::fx::{
    SCALE, iabs, tdiv, sdiv, sqrt_floor, lemma_sqrt_floor_unique, lemma_prod_bound,
    lemma_tdiv_bound, lemma_tdiv_ordered, tdiv128,
};
use crate::vec3::{Vec3, Point3, vec_within, UNIT_MAX};
use crate::ray::{Ray, ray_within, ray_at_spec, T_MAX};
use crate::aabb::AABB;
use crate::hit::{HitRecord, Normal};

verus! {

/// Componentwise bound on sphere centers and radii as a scene declares them.
pub const COORD_MAX: i64 = 0x800_0000;

/// Componentwise bound on the (possibly interpolated) center an intersection
/// works with; an interpolated center outside it counts as a miss.
pub const CENTER_CAP: i64 = 0x2000_0000;

/// The exact three-term product sum, with no rescaling.
pub open spec fn wide_dot(ax: int, ay: int, az: int, bx: int, by: int, bz: int) -> int {
    ax * bx + ay * by + az * bz
}

/// The ray parameter at which a ray first meets the sphere inside `[a, b]`:
/// the smaller root of the exact quadratic if it lies in the range, else the
/// larger root, else nothing. A ray with a zero direction meets nothing.
pub open spec fn quad_candidate(
    cx: int,
    cy: int,
    cz: int,
    radius: int,
    ray: Ray,
    a: int,
    b: int,
) -> Option<int> {
    let ocx = ray.orig.x - cx;
    let ocy = ray.orig.y - cy;
    let ocz = ray.orig.z - cz;
    let dx = ray.dir.x as int;
    let dy = ray.dir.y as int;
    let dz = ray.dir.z as int;
    let qa = wide_dot(dx, dy, dz, dx, dy, dz);
    let qb = 2 * wide_dot(ocx, ocy, ocz, dx, dy, dz);
    let qc = wide_dot(ocx, ocy, ocz, ocx, ocy, ocz) - radius * radius;
    let disc = qb * qb - 4 * qa * qc;
    if qa == 0 || disc < 0 {
        None
    } else {
        let sq = sqrt_floor(disc);
        let r1 = tdiv((-qb - sq) * (SCALE as int), 2 * qa);
        let r2 = tdiv((-qb + sq) * (SCALE as int), 2 * qa);
        if a <= r1 && r1 <= b {
            Some(r1)
        } else if a <= r2 && r2 <= b {
            Some(r2)
        } else {
            None
        }
    }
}

/// The outward unit normal at a point of the sphere, componentwise.
pub open spec fn sphere_normal_x(cx: int, radius: int, px: int) -> int {
    sdiv(px - cx, radius)
}

/// The full intersection record (a sphere reports zero surface parameters).
/// After the candidate parameter is found, the hit point and the outward
/// normal are derived from it. One miss case is this library's own, stated
/// here exactly: a hit whose computed unit normal leaves the representable
/// range is dropped. That can only happen when the rounded root of a nearly
/// degenerate quadratic (a grazing ray, or a radius of a few resolution
/// steps) lands so far from the surface that the point is more than about
/// two radii from the center; keeping such a record would put an unbounded
/// vector where every consumer of a normal needs a unit one. The record's
/// normal opposes the ray: `Front` keeps the outward normal, `Back` negates
/// it.
pub open spec fn sphere_hit_spec(
    cx: int,
    cy: int,
    cz: int,
    radius: int,
    mat: usize,
    ray: Ray,
    a: int,
    b: int,
) -> Option<HitRecord> {
    match quad_candidate(cx, cy, cz, radius, ray, a, b) {
        None => None,
        Some(t) => {
            let p = ray_at_spec(ray, t);
            let nx = sphere_normal_x(cx, radius, p.x as int);
            let ny = sphere_normal_x(cy, radius, p.y as int);
            let nz = sphere_normal_x(cz, radius, p.z as int);
            if iabs(nx) > UNIT_MAX as int || iabs(ny) > UNIT_MAX as int || iabs(nz)
                > UNIT_MAX as int {
                None
            } else {
                let n = Vec3 { x: nx as i64, y: ny as i64, z: nz as i64 };
                let facing = wide_dot(
                    ray.dir.x as int,
                    ray.dir.y as int,
                    ray.dir.z as int,
                    nx,
                    ny,
                    nz,
                );
                let tag = if facing < 0 {
                    Normal::Front(n)
                } else {
                    Normal::Back(Vec3 { x: (-nx) as i64, y: (-ny) as i64, z: (-nz) as i64 })
                };
                Some(
                    HitRecord {
                        point: p,
                        t: t as i64,
                        normal: tag,
                        material: mat,
                        u: 0,
                        v: 0,
                    },
                )
            }
        },
    }
}

/// The shared intersection routine: everything up to the roots is exact
/// 128-bit arithmetic, mirrored term for term by `sphere_hit_spec`.
fn quad_hit(
    cx: i64,
    cy: i64,
    cz: i64,
    radius: i64,
    mat: usize,
    ray: &Ray,
    t_min: i64,
    t_max: i64,
) -> (res: Option<HitRecord>)
    requires
        iabs(cx as int) <= CENTER_CAP as int,
        iabs(cy as int) <= CENTER_CAP as int,
        iabs(cz as int) <= CENTER_CAP as int,
        0 < radius <= COORD_MAX,
        ray_within(*ray),
        iabs(t_min as int) <= T_MAX as int,
        iabs(t_max as int) <= T_MAX as int,
    ensures
        res == sphere_hit_spec(
            cx as int,
            cy as int,
            cz as int,
            radius as int,
            mat,
            *ray,
            t_min as int,
            t_max as int,
        ),
{
    let ocx = (ray.orig.x as i128) - (cx as i128);
    let ocy = (ray.orig.y as i128) - (cy as i128);
    let ocz = (ray.orig.z as i128) - (cz as i128);
    let dx = ray.dir.x as i128;
    let dy = ray.dir.y as i128;
    let dz = ray.dir.z as i128;
    proof {
        lemma_prod_bound(dx as int, dx as int, 0x2000_0000int, 0x2000_0000int);
        lemma_prod_bound(dy as int, dy as int, 0x2000_0000int, 0x2000_0000int);
        lemma_prod_bound(dz as int, dz as int, 0x2000_0000int, 0x2000_0000int);
        lemma_prod_bound(ocx as int, dx as int, 0x4000_0000int, 0x2000_0000int);
        lemma_prod_bound(ocy as int, dy as int, 0x4000_0000int, 0x2000_0000int);
        lemma_prod_bound(ocz as int, dz as int, 0x4000_0000int, 0x2000_0000int);
        lemma_prod_bound(ocx as int, ocx as int, 0x4000_0000int, 0x4000_0000int);
        lemma_prod_bound(ocy as int, ocy as int, 0x4000_0000int, 0x4000_0000int);
        lemma_prod_bound(ocz as int, ocz as int, 0x4000_0000int, 0x4000_0000int);
        lemma_prod_bound(radius as int, radius as int, 0x800_0000int, 0x800_0000int);
    }
    let qa = dx * dx + dy * dy + dz * dz;
    let qb = 2 * (ocx * dx + ocy * dy + ocz * dz);
    let qc = ocx * ocx + ocy * ocy + ocz * ocz - (radius as i128) * (radius as i128);
    proof {
        lemma_prod_bound(qb as int, qb as int, 0x4000_0000_0000_0000int, 0x4000_0000_0000_0000int);
        lemma_prod_bound(4 * (qa as int), qc as int, 0x4000_0000_0000_0000int, 0x4000_0000_0000_0000int);
    }
    let disc = qb * qb - 4 * qa * qc;
    proof {
        // The 128-bit values equal the spec's terms; the one rebracketing the
        // solver cannot do alone is the factor of four in the discriminant.
        assert(4 * ((qa as int) * (qc as int)) == 4 * (qa as int) * (qc as int)) by (nonlinear_arith);
    }
    if qa == 0 {
        return None;
    }
    if disc < 0 {
        return None;
    }
    let squ = crate::fx::isqrt128(disc as u128);
    proof {
        lemma_sqrt_floor_unique(disc as int, squ as int);
        assert(squ < 0x10_0000_0000_0000_0000u128) by (nonlinear_arith)
            requires
                (squ as int) * (squ as int) <= disc as int,
                disc as int <= 0x2_0000_0000_0000_0000_0000_0000_0000_0000int,
                squ >= 0,
        ;
    }
    let sq = squ as i128;
    proof {
        assert(qa > 0) by {
            lemma_square_sum_nonneg(dx as int, dy as int, dz as int);
        };
        lemma_prod_bound(
            (-(qb as int) - (sq as int)),
            SCALE as int,
            0x20_0000_0000_0000_0000int,
            0x1_0000int,
        );
        lemma_prod_bound(
            (-(qb as int) + (sq as int)),
            SCALE as int,
            0x20_0000_0000_0000_0000int,
            0x1_0000int,
        );
    }
    let r1 = tdiv128((-qb - sq) * (SCALE as i128), 2 * qa);
    let r2 = tdiv128((-qb + sq) * (SCALE as i128), 2 * qa);
    let root: i64;
    if (t_min as i128) <= r1 && r1 <= (t_max as i128) {
        root = r1 as i64;
    } else if (t_min as i128) <= r2 && r2 <= (t_max as i128) {
        root = r2 as i64;
    } else {
        return None;
    }
    let p = ray.at(root);
    proof {
        lemma_prod_bound(p.x - cx, SCALE as int, 0x80_0000_0000_0000int, 0x1_0000int);
        lemma_prod_bound(p.y - cy, SCALE as int, 0x80_0000_0000_0000int, 0x1_0000int);
        lemma_prod_bound(p.z - cz, SCALE as int, 0x80_0000_0000_0000int, 0x1_0000int);
    }
    let nx = tdiv128(((p.x as i128) - (cx as i128)) * (SCALE as i128), radius as i128);
    let ny = tdiv128(((p.y as i128) - (cy as i128)) * (SCALE as i128), radius as i128);
    let nz = tdiv128(((p.z as i128) - (cz as i128)) * (SCALE as i128), radius as i128);
    let cap = UNIT_MAX as i128;
    if nx > cap || nx < -cap || ny > cap || ny < -cap || nz > cap || nz < -cap {
        return None;
    }
    let n = Vec3 { x: nx as i64, y: ny as i64, z: nz as i64 };
    proof {
        lemma_prod_bound(dx as int, nx as int, 0x2000_0000int, UNIT_MAX as int);
        lemma_prod_bound(dy as int, ny as int, 0x2000_0000int, UNIT_MAX as int);
        lemma_prod_bound(dz as int, nz as int, 0x2000_0000int, UNIT_MAX as int);
    }
    let facing = dx * nx + dy * ny + dz * nz;
    if facing < 0 {
        Some(HitRecord { point: p, t: root, normal: Normal::Front(n), material: mat, u: 0, v: 0 })
    } else {
        let neg = Vec3 { x: -(nx as i64), y: -(ny as i64), z: -(nz as i64) };
        Some(HitRecord { point: p, t: root, normal: Normal::Back(neg), material: mat, u: 0, v: 0 })
    }
}

/// A sum of squares is nonnegative.
proof fn lemma_square_sum_nonneg(x: int, y: int, z: int)
    ensures
        wide_dot(x, y, z, x, y, z) >= 0,
{
    assert(x * x >= 0) by (nonlinear_arith);
    assert(y * y >= 0) by (nonlinear_arith);
    assert(z * z >= 0) by (nonlinear_arith);
}

#[derive(Clone, Copy, PartialEq, Eq, Structural, Debug)]
pub struct Sphere {
    pub center: Point3,
    pub radius: i64,
    pub material: usize,
}

/// A sphere the tracer can work with: center within the scene coordinate
/// bound, radius positive and bounded.
pub open spec fn sphere_within(s: Sphere) -> bool {
    vec_within(s.center, COORD_MAX as int) && 0 < s.radius <= COORD_MAX
}

impl Sphere {
    pub fn new(center: Point3, radius: i64, material: usize) -> (r: Sphere)
        requires
            vec_within(center, COORD_MAX as int),
            0 < radius <= COORD_MAX,
        ensures
            r == (Sphere { center, radius, material }),
            sphere_within(r),
    {
        Sphere { center, radius, material }
    }

    pub fn hit(&self, ray: &Ray, t_min: i64, t_max: i64) -> (res: Option<HitRecord>)
        requires
            sphere_within(*self),
            ray_within(*ray),
            iabs(t_min as int) <= T_MAX as int,
            iabs(t_max as int) <= T_MAX as int,
        ensures
            res == sphere_hit_spec(
                self.center.x as int,
                self.center.y as int,
                self.center.z as int,
                self.radius as int,
                self.material,
                *ray,
                t_min as int,
                t_max as int,
            ),
    {
        quad_hit(
            self.center.x,
            self.center.y,
            self.center.z,
            self.radius,
            self.material,
            ray,
            t_min,
            t_max,
        )
    }

    /// The box `[center - r, center + r]`.
    pub fn bounding_box(&self) -> (bx: AABB)
        requires
            sphere_within(*self),
        ensures
            bx == sphere_box_spec(*self),
    {
        AABB {
            minimum: Vec3 {
                x: self.center.x - self.radius,
                y: self.center.y - self.radius,
                z: self.center.z - self.radius,
            },
            maximum: Vec3 {
                x: self.center.x + self.radius,
                y: self.center.y + self.radius,
                z: self.center.z + self.radius,
            },
        }
    }
}

/// What shrinking the upper end of the query range does to a hit: a hit not
/// past the new end is kept unchanged, anything else becomes a miss.
pub open spec fn shrink_expect(res: Option<HitRecord>, b2: int) -> Option<HitRecord> {
    match res {
        Some(h) => if h.t <= b2 {
            Some(h)
        } else {
            None
        },
        None => None,
    }
}

/// Shrinking the upper end of the query range keeps exactly the hits that lie
/// at or before the new end. This is what lets a tree query pass the distance
/// of the best hit so far as the new upper bound without losing a nearer hit.
pub proof fn lemma_sphere_hit_shrink(
    cx: int,
    cy: int,
    cz: int,
    radius: int,
    mat: usize,
    ray: Ray,
    a: int,
    b: int,
    b2: int,
)
    requires
        b2 <= b,
        iabs(a) <= T_MAX as int,
        iabs(b) <= T_MAX as int,
    ensures
        sphere_hit_spec(cx, cy, cz, radius, mat, ray, a, b2) == shrink_expect(
            sphere_hit_spec(cx, cy, cz, radius, mat, ray, a, b),
            b2,
        ),
{
    let ocx = ray.orig.x - cx;
    let ocy = ray.orig.y - cy;
    let ocz = ray.orig.z - cz;
    let dx = ray.dir.x as int;
    let dy = ray.dir.y as int;
    let dz = ray.dir.z as int;
    let qa = wide_dot(dx, dy, dz, dx, dy, dz);
    let qb = 2 * wide_dot(ocx, ocy, ocz, dx, dy, dz);
    let qc = wide_dot(ocx, ocy, ocz, ocx, ocy, ocz) - radius * radius;
    let disc = qb * qb - 4 * qa * qc;
    if qa == 0 || disc < 0 {
    } else {
        let sq = sqrt_floor(disc);
        crate::vec3::lemma_sqrt_floor_unique_converse(disc, sq);
        lemma_square_sum_nonneg(dx, dy, dz);
        vstd::arithmetic::mul::lemma_mul_inequality((-qb - sq), (-qb + sq), SCALE as int);
        lemma_tdiv_ordered((-qb - sq) * (SCALE as int), (-qb + sq) * (SCALE as int), 2 * qa);
        let r1 = tdiv((-qb - sq) * (SCALE as int), 2 * qa);
        let r2 = tdiv((-qb + sq) * (SCALE as int), 2 * qa);
        assert(r1 <= r2);
        if a <= r1 && r1 <= b {
            assert(quad_candidate(cx, cy, cz, radius, ray, a, b) == Some(r1));
            if r1 <= b2 {
                assert(quad_candidate(cx, cy, cz, radius, ray, a, b2) == Some(r1));
            } else {
                assert(quad_candidate(cx, cy, cz, radius, ray, a, b2) is None);
            }
        } else if a <= r2 && r2 <= b {
            assert(quad_candidate(cx, cy, cz, radius, ray, a, b) == Some(r2));
            if r2 <= b2 {
                assert(quad_candidate(cx, cy, cz, radius, ray, a, b2) == Some(r2));
            } else {
                assert(quad_candidate(cx, cy, cz, radius, ray, a, b2) is None);
            }
        } else {
            assert(quad_candidate(cx, cy, cz, radius, ray, a, b) is None);
            assert(quad_candidate(cx, cy, cz, radius, ray, a, b2) is None);
        }
    }
}

/// A reported hit's fields are in the working domain: the stored normal
/// passed the unit cap, and the hit point is a bounded ray's reach at a
/// bounded parameter.
pub proof fn lemma_sphere_hit_within(
    cx: int,
    cy: int,
    cz: int,
    radius: int,
    mat: usize,
    ray: Ray,
    a: int,
    b: int,
)
    requires
        ray_within(ray),
        iabs(a) <= T_MAX as int,
        iabs(b) <= T_MAX as int,
    ensures
        match sphere_hit_spec(cx, cy, cz, radius, mat, ray, a, b) {
            Some(h) => vec_within(crate::hit::normal_vec(h.normal), UNIT_MAX as int)
                && vec_within(h.point, crate::ray::POINT_MAX as int),
            None => true,
        },
{
    match quad_candidate(cx, cy, cz, radius, ray, a, b) {
        None => {},
        Some(t) => {
            lemma_prod_bound(t, ray.dir.x as int, T_MAX as int, crate::ray::DIR_MAX as int);
            crate::fx::lemma_smul_bound(t, ray.dir.x as int, T_MAX as int, crate::ray::DIR_MAX as int);
            crate::fx::lemma_smul_bound(t, ray.dir.y as int, T_MAX as int, crate::ray::DIR_MAX as int);
            crate::fx::lemma_smul_bound(t, ray.dir.z as int, T_MAX as int, crate::ray::DIR_MAX as int);
        },
    }
}

/// A reported hit's point is where the ray stands at the reported
/// parameter, so two hits at the same parameter are at the same point.
pub proof fn lemma_sphere_hit_point(
    cx: int,
    cy: int,
    cz: int,
    radius: int,
    mat: usize,
    ray: Ray,
    a: int,
    b: int,
)
    requires
        iabs(a) <= T_MAX as int,
        iabs(b) <= T_MAX as int,
    ensures
        match sphere_hit_spec(cx, cy, cz, radius, mat, ray, a, b) {
            Some(h) => h.point == ray_at_spec(ray, h.t as int),
            None => true,
        },
{
}

/// A reported hit lies inside the query range.
pub proof fn lemma_sphere_hit_in_range(
    cx: int,
    cy: int,
    cz: int,
    radius: int,
    mat: usize,
    ray: Ray,
    a: int,
    b: int,
)
    requires
        iabs(a) <= T_MAX as int,
        iabs(b) <= T_MAX as int,
    ensures
        match sphere_hit_spec(cx, cy, cz, radius, mat, ray, a, b) {
            Some(h) => a <= h.t && h.t <= b,
            None => true,
        },
{
}

pub open spec fn sphere_box_spec(s: Sphere) -> AABB {
    AABB {
        minimum: Vec3 {
            x: (s.center.x - s.radius) as i64,
            y: (s.center.y - s.radius) as i64,
            z: (s.center.z - s.radius) as i64,
        },
        maximum: Vec3 {
            x: (s.center.x + s.radius) as i64,
            y: (s.center.y + s.radius) as i64,
            z: (s.center.z + s.radius) as i64,
        },
    }
}

/// A sphere whose center slides from `center0` at `time0` to `center1` at
/// `time1`; a ray meets it where the sphere stands at the ray's own
/// timestamp.
#[derive(Clone, Copy, PartialEq, Eq, Structural, Debug)]
pub struct MovingSphere {
    pub center0: Point3,
    pub center1: Point3,
    pub time0: i64,
    pub time1: i64,
    pub radius: i64,
    pub material: usize,
}

pub open spec fn moving_within(s: MovingSphere) -> bool {
    &&& vec_within(s.center0, COORD_MAX as int)
    &&& vec_within(s.center1, COORD_MAX as int)
    &&& 0 < s.radius <= COORD_MAX
    &&& iabs(s.time0 as int) <= COORD_MAX as int
    &&& iabs(s.time1 as int) <= COORD_MAX as int
    &&& s.time0 < s.time1
}

/// One component of the interpolated center: `c0 + (c1 - c0) * f` with the
/// interpolation factor `f = (time - time0) / (time1 - time0)`.
pub open spec fn mcenter(c0: int, c1: int, t0: int, t1: int, time: int) -> int {
    c0 + crate::fx::smul(c1 - c0, sdiv(time - t0, t1 - t0))
}

/// A moving sphere's hit: the center is interpolated to the ray's timestamp
/// first; a timestamp so far outside the exposure that the extrapolated
/// center leaves the working domain counts as a miss.
pub open spec fn moving_hit_spec(s: MovingSphere, ray: Ray, a: int, b: int) -> Option<
    HitRecord,
> {
    let mx = mcenter(s.center0.x as int, s.center1.x as int, s.time0 as int, s.time1 as int, ray.time as int);
    let my = mcenter(s.center0.y as int, s.center1.y as int, s.time0 as int, s.time1 as int, ray.time as int);
    let mz = mcenter(s.center0.z as int, s.center1.z as int, s.time0 as int, s.time1 as int, ray.time as int);
    if iabs(mx) > CENTER_CAP as int || iabs(my) > CENTER_CAP as int || iabs(mz)
        > CENTER_CAP as int {
        None
    } else {
        sphere_hit_spec(mx, my, mz, s.radius as int, s.material, ray, a, b)
    }
}

/// One component of the interpolated center, in 128-bit arithmetic.
fn mcenter_exec(c0: i64, c1: i64, t0: i64, t1: i64, time: i64) -> (r: i128)
    requires
        iabs(c0 as int) <= COORD_MAX as int,
        iabs(c1 as int) <= COORD_MAX as int,
        iabs(t0 as int) <= COORD_MAX as int,
        t0 < t1,
        iabs(time as int) <= T_MAX as int,
    ensures
        r as int == mcenter(c0 as int, c1 as int, t0 as int, t1 as int, time as int),
{
    proof {
        lemma_prod_bound(
            time - t0,
            SCALE as int,
            0x200_0000_0000int,
            0x1_0000int,
        );
    }
    let num = ((time as i128) - (t0 as i128)) * (SCALE as i128);
    let factor = tdiv128(num, (t1 as i128) - (t0 as i128));
    proof {
        lemma_tdiv_bound(
            (time - t0) * (SCALE as int),
            t1 - t0,
            0x200_0000_0000int * 0x1_0000int,
        );
        lemma_prod_bound(
            (c1 as int) - (c0 as int),
            factor as int,
            0x1000_0000int,
            0x200_0000_0000int * 0x1_0000int,
        );
    }
    let off = tdiv128(((c1 as i128) - (c0 as i128)) * factor, SCALE as i128);
    proof {
        lemma_tdiv_bound(
            ((c1 as int) - (c0 as int)) * (factor as int),
            SCALE as int,
            0x1000_0000int * (0x200_0000_0000int * 0x1_0000int),
        );
    }
    (c0 as i128) + off
}

impl MovingSphere {
    pub fn new(
        center0: Point3,
        center1: Point3,
        time0: i64,
        time1: i64,
        radius: i64,
        material: usize,
    ) -> (r: MovingSphere)
        requires
            vec_within(center0, COORD_MAX as int),
            vec_within(center1, COORD_MAX as int),
            0 < radius <= COORD_MAX,
            iabs(time0 as int) <= COORD_MAX as int,
            iabs(time1 as int) <= COORD_MAX as int,
            time0 < time1,
        ensures
            r == (MovingSphere { center0, center1, time0, time1, radius, material }),
            moving_within(r),
    {
        MovingSphere { center0, center1, time0, time1, radius, material }
    }

    /// Where the center stands at a time inside the exposure interval.
    pub fn center(&self, time: i64) -> (r: Point3)
        requires
            moving_within(*self),
            self.time0 <= time <= self.time1,
        ensures
            r.x as int == mcenter(
                self.center0.x as int,
                self.center1.x as int,
                self.time0 as int,
                self.time1 as int,
                time as int,
            ),
            r.y as int == mcenter(
                self.center0.y as int,
                self.center1.y as int,
                self.time0 as int,
                self.time1 as int,
                time as int,
            ),
            r.z as int == mcenter(
                self.center0.z as int,
                self.center1.z as int,
                self.time0 as int,
                self.time1 as int,
                time as int,
            ),
            vec_within(r, CENTER_CAP as int),
    {
        proof {
            lemma_mcenter_inside(
                self.center0.x as int,
                self.center1.x as int,
                self.time0 as int,
                self.time1 as int,
                time as int,
            );
            lemma_mcenter_inside(
                self.center0.y as int,
                self.center1.y as int,
                self.time0 as int,
                self.time1 as int,
                time as int,
            );
            lemma_mcenter_inside(
                self.center0.z as int,
                self.center1.z as int,
                self.time0 as int,
                self.time1 as int,
                time as int,
            );
        }
        let x = mcenter_exec(self.center0.x, self.center1.x, self.time0, self.time1, time);
        let y = mcenter_exec(self.center0.y, self.center1.y, self.time0, self.time1, time);
        let z = mcenter_exec(self.center0.z, self.center1.z, self.time0, self.time1, time);
        Vec3 { x: x as i64, y: y as i64, z: z as i64 }
    }

    pub fn hit(&self, ray: &Ray, t_min: i64, t_max: i64) -> (res: Option<HitRecord>)
        requires
            moving_within(*self),
            ray_within(*ray),
            iabs(t_min as int) <= T_MAX as int,
            iabs(t_max as int) <= T_MAX as int,
        ensures
            res == moving_hit_spec(*self, *ray, t_min as int, t_max as int),
    {
        let mx = mcenter_exec(self.center0.x, self.center1.x, self.time0, self.time1, ray.time);
        let my = mcenter_exec(self.center0.y, self.center1.y, self.time0, self.time1, ray.time);
        let mz = mcenter_exec(self.center0.z, self.center1.z, self.time0, self.time1, ray.time);
        let cap = CENTER_CAP as i128;
        if mx > cap || mx < -cap || my > cap || my < -cap || mz > cap || mz < -cap {
            return None;
        }
        quad_hit(
            mx as i64,
            my as i64,
            mz as i64,
            self.radius,
            self.material,
            ray,
            t_min,
            t_max,
        )
    }

    /// The union of the boxes at the two ends of the exposure interval: the
    /// interpolated center sits at `center0` when `time0` is reached and at
    /// `center1` at `time1`, so the union bounds the whole swept path.
    pub fn bounding_box(&self) -> (bx: AABB)
        requires
            moving_within(*self),
        ensures
            bx == moving_box_spec(*self),
    {
        let box0 = AABB {
            minimum: Vec3 {
                x: self.center0.x - self.radius,
                y: self.center0.y - self.radius,
                z: self.center0.z - self.radius,
            },
            maximum: Vec3 {
                x: self.center0.x + self.radius,
                y: self.center0.y + self.radius,
                z: self.center0.z + self.radius,
            },
        };
        let box1 = AABB {
            minimum: Vec3 {
                x: self.center1.x - self.radius,
                y: self.center1.y - self.radius,
                z: self.center1.z - self.radius,
            },
            maximum: Vec3 {
                x: self.center1.x + self.radius,
                y: self.center1.y + self.radius,
                z: self.center1.z + self.radius,
            },
        };
        AABB::surrounding_box(box0, box1)
    }
}

pub open spec fn moving_box_spec(s: MovingSphere) -> AABB {
    let box0 = AABB {
        minimum: Vec3 {
            x: (s.center0.x - s.radius) as i64,
            y: (s.center0.y - s.radius) as i64,
            z: (s.center0.z - s.radius) as i64,
        },
        maximum: Vec3 {
            x: (s.center0.x + s.radius) as i64,
            y: (s.center0.y + s.radius) as i64,
            z: (s.center0.z + s.radius) as i64,
        },
    };
    let box1 = AABB {
        minimum: Vec3 {
            x: (s.center1.x - s.radius) as i64,
            y: (s.center1.y - s.radius) as i64,
            z: (s.center1.z - s.radius) as i64,
        },
        maximum: Vec3 {
            x: (s.center1.x + s.radius) as i64,
            y: (s.center1.y + s.radius) as i64,
            z: (s.center1.z + s.radius) as i64,
        },
    };
    AABB {
        minimum: Vec3 {
            x: if box0.minimum.x <= box1.minimum.x {
                box0.minimum.x
            } else {
                box1.minimum.x
            },
            y: if box0.minimum.y <= box1.minimum.y {
                box0.minimum.y
            } else {
                box1.minimum.y
            },
            z: if box0.minimum.z <= box1.minimum.z {
                box0.minimum.z
            } else {
                box1.minimum.z
            },
        },
        maximum: Vec3 {
            x: if box0.maximum.x >= box1.maximum.x {
                box0.maximum.x
            } else {
                box1.maximum.x
            },
            y: if box0.maximum.y >= box1.maximum.y {
                box0.maximum.y
            } else {
                box1.maximum.y
            },
            z: if box0.maximum.z >= box1.maximum.z {
                box0.maximum.z
            } else {
                box1.maximum.z
            },
        },
    }
}

/// Inside the exposure interval the interpolation factor stays in `[0, 1]`,
/// so the interpolated center stays within the working domain.
proof fn lemma_mcenter_inside(c0: int, c1: int, t0: int, t1: int, time: int)
    requires
        iabs(c0) <= COORD_MAX as int,
        iabs(c1) <= COORD_MAX as int,
        t0 < t1,
        t0 <= time <= t1,
    ensures
        iabs(mcenter(c0, c1, t0, t1, time)) <= CENTER_CAP as int,
{
    let s = SCALE as int;
    let dt = t1 - t0;
    let f = sdiv(time - t0, dt);
    assert(0 <= f <= s) by {
        vstd::arithmetic::div_mod::lemma_div_pos_is_pos((time - t0) * s, dt);
        assert((time - t0) * s >= 0) by (nonlinear_arith)
            requires
                time - t0 >= 0,
                s > 0,
        ;
        vstd::arithmetic::mul::lemma_mul_inequality(time - t0, dt, s);
        lemma_tdiv_ordered((time - t0) * s, dt * s, dt);
        vstd::arithmetic::mul::lemma_mul_is_commutative(dt, s);
        vstd::arithmetic::div_mod::lemma_div_multiples_vanish(s, dt);
    };
    crate::fx::lemma_smul_bound(c1 - c0, f, 2 * COORD_MAX as int, s);
    assert((2 * COORD_MAX as int) * s / s == 2 * COORD_MAX as int) by {
        vstd::arithmetic::div_mod::lemma_div_multiples_vanish(2 * COORD_MAX as int, s);
        vstd::arithmetic::mul::lemma_mul_is_commutative(2 * COORD_MAX as int, s);
    };
}

} // verus!
