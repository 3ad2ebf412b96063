//! The thin-lens camera.
//!
//! Construction builds the orthonormal basis `w = unit(lookfrom - lookat)`,
//! `u = unit(up x w)`, `v = w x u`, sizes the viewport on the focus plane
//! from the vertical field of view, and precomputes the lower-left corner.
//! `get_ray` jitters the origin over the lens disk for depth of field (the
//! offset is `u * d.x + v * d.y` for a disk point `d`) and stamps the ray
//! with a time drawn from the exposure interval for motion blur.

use vstd::prelude::*;
use crate::fx::{SCALE, iabs, smul, tdiv, fmul, tdiv128, lemma_smul_bound, lemma_tdiv_bound};
use crate::vec3::{Vec3, Point3, vec_within, cross, normalize_spec, UNIT_MAX};
use crate::ray::Ray;
use crate::sphere::COORD_MAX;
use crate::texture::PI_FX;
use crate::util::{random_in_unit_disk, in_unit_sphere};
use crate::rng::rand_range;

verus! {

/// Width over height of the image, sixteen to nine in fixed point.
pub const ASPECT_RATIO: i64 = 116508;

/// The tangent of half the vertical field of view (given in degrees), by the
/// odd series `x + x^3/3 + 2 x^5/15 + 17 x^7/315` at `x = vfov * pi / 360`
/// radians.
pub open spec fn tan_half_spec(vfov: int) -> int {
    let x = tdiv(vfov * (PI_FX as int), 360 * (SCALE as int));
    let x2 = smul(x, x);
    let x3 = smul(x2, x);
    let x5 = smul(x2, x3);
    let x7 = smul(x2, x5);
    x + tdiv(x3, 3) + tdiv(2 * x5, 15) + tdiv(17 * x7, 315)
}

fn tan_half(vfov: i64) -> (r: i64)
    requires
        0 < vfov < 180 * SCALE,
    ensures
        r as int == tan_half_spec(vfov as int),
        iabs(r as int) <= 0x800_0000,
{
    proof {
        crate::fx::lemma_prod_bound(vfov as int, PI_FX as int, 180 * (SCALE as int), PI_FX as int);
        lemma_tdiv_bound(
            (vfov as int) * (PI_FX as int),
            360 * (SCALE as int),
            180 * (SCALE as int) * (PI_FX as int),
        );
        assert(180 * (SCALE as int) * (PI_FX as int) / (360 * (SCALE as int)) < 0x4_0000int)
            by (nonlinear_arith)
            requires
                SCALE == 65536i64,
                PI_FX == 205887i64,
        ;
    }
    let x = tdiv128((vfov as i128) * (PI_FX as i128), 360 * (SCALE as i128)) as i64;
    proof {
        lemma_smul_bound(x as int, x as int, 0x4_0000int, 0x4_0000int);
        let x2 = smul(x as int, x as int);
        lemma_smul_bound(x2, x as int, 0x10_0000int, 0x4_0000int);
        let x3 = smul(x2, x as int);
        lemma_smul_bound(x2, x3, 0x10_0000int, 0x40_0000int);
        let x5 = smul(x2, x3);
        lemma_smul_bound(x2, x5, 0x10_0000int, 0x400_0000int);
        let x7 = smul(x2, x5);
        lemma_tdiv_bound(x3, 3, 0x40_0000int);
        lemma_tdiv_bound(2 * x5, 15, 0x800_0000int);
        lemma_tdiv_bound(17 * x7, 315, 0x8_0000_0000int);
    }
    let x2 = fmul(x, x);
    let x3 = fmul(x2, x);
    let x5 = fmul(x2, x3);
    let x7 = fmul(x2, x5);
    let t3 = tdiv128(x3 as i128, 3) as i64;
    let t5 = tdiv128(2 * (x5 as i128), 15) as i64;
    let t7 = tdiv128(17 * (x7 as i128), 315) as i64;
    x + t3 + t5 + t7
}

#[derive(Clone, Copy, PartialEq, Eq, Structural, Debug)]
pub struct Camera {
    pub origin: Point3,
    pub horizontal: Vec3,
    pub vertical: Vec3,
    pub lower_left_corner: Point3,
    pub u: Vec3,
    pub v: Vec3,
    pub w: Vec3,
    pub lens_radius: i64,
    pub time0: i64,
    pub time1: i64,
}

/// The field bounds `get_ray`'s arithmetic needs, established at
/// construction.
pub open spec fn cam_within(c: Camera) -> bool {
    &&& vec_within(c.origin, COORD_MAX as int)
    &&& vec_within(c.horizontal, 0x400_0000_0000int)
    &&& vec_within(c.vertical, 0x4000_0000_0000int)
    &&& vec_within(c.lower_left_corner, 0x1_0000_0000_0000int)
    &&& vec_within(c.u, UNIT_MAX as int)
    &&& vec_within(c.v, 0x80_0000int)
    &&& vec_within(c.w, UNIT_MAX as int)
    &&& 0 <= c.lens_radius <= COORD_MAX
    &&& iabs(c.time0 as int) <= COORD_MAX as int
    &&& iabs(c.time1 as int) <= COORD_MAX as int
    &&& c.time0 < c.time1
}

/// What construction computes, field for field.
pub open spec fn camera_spec(
    lookfrom: Point3,
    lookat: Point3,
    vfov: int,
    aperture: int,
    focus_dist: int,
    time0: i64,
    time1: i64,
) -> Camera {
    let h = smul(tan_half_spec(vfov), focus_dist);
    let viewport_height = 2 * h;
    let viewport_width = smul(ASPECT_RATIO as int, viewport_height);
    let vup = Vec3 { x: 0, y: SCALE, z: 0 };
    let diff = Vec3 {
        x: (lookfrom.x - lookat.x) as i64,
        y: (lookfrom.y - lookat.y) as i64,
        z: (lookfrom.z - lookat.z) as i64,
    };
    let w = normalize_spec(diff);
    let u = normalize_spec(cross_spec(vup, w));
    let v = cross_spec(w, u);
    let horizontal = Vec3 {
        x: smul(u.x as int, viewport_width) as i64,
        y: smul(u.y as int, viewport_width) as i64,
        z: smul(u.z as int, viewport_width) as i64,
    };
    let vertical = Vec3 {
        x: smul(v.x as int, viewport_height) as i64,
        y: smul(v.y as int, viewport_height) as i64,
        z: smul(v.z as int, viewport_height) as i64,
    };
    let llc = Vec3 {
        x: (lookfrom.x - tdiv(horizontal.x as int, 2) - tdiv(vertical.x as int, 2) - smul(
            w.x as int,
            focus_dist,
        )) as i64,
        y: (lookfrom.y - tdiv(horizontal.y as int, 2) - tdiv(vertical.y as int, 2) - smul(
            w.y as int,
            focus_dist,
        )) as i64,
        z: (lookfrom.z - tdiv(horizontal.z as int, 2) - tdiv(vertical.z as int, 2) - smul(
            w.z as int,
            focus_dist,
        )) as i64,
    };
    Camera {
        origin: lookfrom,
        horizontal,
        vertical,
        lower_left_corner: llc,
        u,
        v,
        w,
        lens_radius: tdiv(aperture, 2) as i64,
        time0,
        time1,
    }
}

pub open spec fn cross_spec(a: Vec3, b: Vec3) -> Vec3 {
    Vec3 {
        x: (smul(a.y as int, b.z as int) - smul(a.z as int, b.y as int)) as i64,
        y: (smul(a.z as int, b.x as int) - smul(a.x as int, b.z as int)) as i64,
        z: (smul(a.x as int, b.y as int) - smul(a.y as int, b.x as int)) as i64,
    }
}

/// The ray through normalized image coordinates `(s, t)`, for a given lens
/// disk point and exposure time.
pub open spec fn camera_ray_spec(c: Camera, s: int, t: int, d: Vec3, time: int) -> Ray {
    let rdx = smul(d.x as int, c.lens_radius as int);
    let rdy = smul(d.y as int, c.lens_radius as int);
    let off = Vec3 {
        x: (smul(c.u.x as int, rdx) + smul(c.v.x as int, rdy)) as i64,
        y: (smul(c.u.y as int, rdx) + smul(c.v.y as int, rdy)) as i64,
        z: (smul(c.u.z as int, rdx) + smul(c.v.z as int, rdy)) as i64,
    };
    let orig = Vec3 {
        x: (c.origin.x + off.x) as i64,
        y: (c.origin.y + off.y) as i64,
        z: (c.origin.z + off.z) as i64,
    };
    let dir = Vec3 {
        x: (c.lower_left_corner.x + smul(c.horizontal.x as int, s) + smul(c.vertical.x as int, t)
            - orig.x) as i64,
        y: (c.lower_left_corner.y + smul(c.horizontal.y as int, s) + smul(c.vertical.y as int, t)
            - orig.y) as i64,
        z: (c.lower_left_corner.z + smul(c.horizontal.z as int, s) + smul(c.vertical.z as int, t)
            - orig.z) as i64,
    };
    Ray { orig, dir, time: time as i64 }
}

impl Camera {
    #[verifier::rlimit(100)]
    #[verifier::spinoff_prover]
    pub fn new(
        lookfrom: Point3,
        lookat: Point3,
        vfov: i64,
        aperture: i64,
        focus_dist: i64,
        time0: i64,
        time1: i64,
    ) -> (r: Camera)
        requires
            vec_within(lookfrom, COORD_MAX as int),
            vec_within(lookat, COORD_MAX as int),
            0 < vfov < 180 * SCALE,
            0 <= aperture <= COORD_MAX,
            0 < focus_dist <= COORD_MAX,
            iabs(time0 as int) <= COORD_MAX as int,
            iabs(time1 as int) <= COORD_MAX as int,
            time0 < time1,
        ensures
            r == camera_spec(
                lookfrom,
                lookat,
                vfov as int,
                aperture as int,
                focus_dist as int,
                time0,
                time1,
            ),
            cam_within(r),
    {
        let th = tan_half(vfov);
        proof {
            lemma_smul_bound(th as int, focus_dist as int, 0x800_0000int, COORD_MAX as int);
        }
        let h = fmul(th, focus_dist);
        let viewport_height = 2 * h;
        proof {
            lemma_smul_bound(ASPECT_RATIO as int, viewport_height as int, 0x2_0000int, 0x80_0000_0000int);
        }
        let viewport_width = fmul(ASPECT_RATIO, viewport_height);
        let vup = Vec3 { x: 0, y: SCALE, z: 0 };
        let diff = Vec3 {
            x: lookfrom.x - lookat.x,
            y: lookfrom.y - lookat.y,
            z: lookfrom.z - lookat.z,
        };
        let w = diff.normalize();
        let cu = cross(&vup, &w);
        proof {
            lemma_cross_unit_bound(vup, w);
        }
        let u = cu.normalize();
        let v = cross(&w, &u);
        proof {
            lemma_cross_unit_bound(w, u);
            let vw = viewport_width as int;
            let vh = viewport_height as int;
            lemma_smul_bound(u.x as int, vw, UNIT_MAX as int, 0x100_0000_0000int);
            lemma_smul_bound(u.y as int, vw, UNIT_MAX as int, 0x100_0000_0000int);
            lemma_smul_bound(u.z as int, vw, UNIT_MAX as int, 0x100_0000_0000int);
            lemma_smul_bound(v.x as int, vh, 0x80_0000int, 0x80_0000_0000int);
            lemma_smul_bound(v.y as int, vh, 0x80_0000int, 0x80_0000_0000int);
            lemma_smul_bound(v.z as int, vh, 0x80_0000int, 0x80_0000_0000int);
            lemma_smul_bound(w.x as int, focus_dist as int, UNIT_MAX as int, COORD_MAX as int);
            lemma_smul_bound(w.y as int, focus_dist as int, UNIT_MAX as int, COORD_MAX as int);
            lemma_smul_bound(w.z as int, focus_dist as int, UNIT_MAX as int, COORD_MAX as int);
        }
        let horizontal = Vec3 {
            x: fmul(u.x, viewport_width),
            y: fmul(u.y, viewport_width),
            z: fmul(u.z, viewport_width),
        };
        let vertical = Vec3 {
            x: fmul(v.x, viewport_height),
            y: fmul(v.y, viewport_height),
            z: fmul(v.z, viewport_height),
        };
        let llc = Vec3 {
            x: lookfrom.x - (tdiv128(horizontal.x as i128, 2) as i64) - (tdiv128(
                vertical.x as i128,
                2,
            ) as i64) - fmul(w.x, focus_dist),
            y: lookfrom.y - (tdiv128(horizontal.y as i128, 2) as i64) - (tdiv128(
                vertical.y as i128,
                2,
            ) as i64) - fmul(w.y, focus_dist),
            z: lookfrom.z - (tdiv128(horizontal.z as i128, 2) as i64) - (tdiv128(
                vertical.z as i128,
                2,
            ) as i64) - fmul(w.z, focus_dist),
        };
        proof {
            lemma_tdiv_bound(horizontal.x as int, 2, 0x400_0000_0000int);
            lemma_tdiv_bound(horizontal.y as int, 2, 0x400_0000_0000int);
            lemma_tdiv_bound(horizontal.z as int, 2, 0x400_0000_0000int);
            lemma_tdiv_bound(vertical.x as int, 2, 0x4000_0000_0000int);
            lemma_tdiv_bound(vertical.y as int, 2, 0x4000_0000_0000int);
            lemma_tdiv_bound(vertical.z as int, 2, 0x4000_0000_0000int);
        }
        Camera {
            origin: lookfrom,
            horizontal,
            vertical,
            lower_left_corner: llc,
            u,
            v,
            w,
            lens_radius: tdiv128(aperture as i128, 2) as i64,
            time0,
            time1,
        }
    }

    /// The jittered ray through normalized image coordinates `(s, t)`.
    pub fn get_ray(&self, s: i64, t: i64, rng: &mut rand::rngs::StdRng) -> (r: Ray)
        requires
            cam_within(*self),
            0 <= s <= 2 * SCALE,
            0 <= t <= 2 * SCALE,
        ensures
            exists|d: Vec3, time: int|
                in_unit_sphere(d) && d.z == 0 && self.time0 <= time < self.time1 && r
                    == #[trigger] camera_ray_spec(*self, s as int, t as int, d, time),
    {
        let d = random_in_unit_disk(rng);
        proof {
            lemma_smul_bound(d.x as int, self.lens_radius as int, SCALE as int, COORD_MAX as int);
            lemma_smul_bound(d.y as int, self.lens_radius as int, SCALE as int, COORD_MAX as int);
        }
        let rdx = fmul(d.x, self.lens_radius);
        let rdy = fmul(d.y, self.lens_radius);
        proof {
            lemma_smul_bound(self.u.x as int, rdx as int, UNIT_MAX as int, COORD_MAX as int);
            lemma_smul_bound(self.u.y as int, rdx as int, UNIT_MAX as int, COORD_MAX as int);
            lemma_smul_bound(self.u.z as int, rdx as int, UNIT_MAX as int, COORD_MAX as int);
            lemma_smul_bound(self.v.x as int, rdy as int, 0x80_0000int, COORD_MAX as int);
            lemma_smul_bound(self.v.y as int, rdy as int, 0x80_0000int, COORD_MAX as int);
            lemma_smul_bound(self.v.z as int, rdy as int, 0x80_0000int, COORD_MAX as int);
        }
        let off = Vec3 {
            x: fmul(self.u.x, rdx) + fmul(self.v.x, rdy),
            y: fmul(self.u.y, rdx) + fmul(self.v.y, rdy),
            z: fmul(self.u.z, rdx) + fmul(self.v.z, rdy),
        };
        let orig = Vec3 {
            x: self.origin.x + off.x,
            y: self.origin.y + off.y,
            z: self.origin.z + off.z,
        };
        proof {
            let si = s as int;
            let ti = t as int;
            lemma_smul_bound(self.horizontal.x as int, si, 0x400_0000_0000int, 2 * SCALE as int);
            lemma_smul_bound(self.horizontal.y as int, si, 0x400_0000_0000int, 2 * SCALE as int);
            lemma_smul_bound(self.horizontal.z as int, si, 0x400_0000_0000int, 2 * SCALE as int);
            lemma_smul_bound(self.vertical.x as int, ti, 0x4000_0000_0000int, 2 * SCALE as int);
            lemma_smul_bound(self.vertical.y as int, ti, 0x4000_0000_0000int, 2 * SCALE as int);
            lemma_smul_bound(self.vertical.z as int, ti, 0x4000_0000_0000int, 2 * SCALE as int);
        }
        let dir = Vec3 {
            x: self.lower_left_corner.x + fmul(self.horizontal.x, s) + fmul(self.vertical.x, t)
                - orig.x,
            y: self.lower_left_corner.y + fmul(self.horizontal.y, s) + fmul(self.vertical.y, t)
                - orig.y,
            z: self.lower_left_corner.z + fmul(self.horizontal.z, s) + fmul(self.vertical.z, t)
                - orig.z,
        };
        let time = rand_range(rng, self.time0, self.time1);
        let r = Ray { orig, dir, time };
        proof {
            assert(in_unit_sphere(d) && d.z == 0 && self.time0 <= time as int && (time as int)
                < self.time1 && r == camera_ray_spec(*self, s as int, t as int, d, time as int));
        }
        r
    }
}

/// The cross product of two unit-domain vectors is small.
proof fn lemma_cross_unit_bound(a: Vec3, b: Vec3)
    requires
        vec_within(a, UNIT_MAX as int),
        vec_within(b, UNIT_MAX as int),
    ensures
        vec_within(cross_spec(a, b), 0x80_0000int),
{
    lemma_smul_bound(a.y as int, b.z as int, UNIT_MAX as int, UNIT_MAX as int);
    lemma_smul_bound(a.z as int, b.y as int, UNIT_MAX as int, UNIT_MAX as int);
    lemma_smul_bound(a.z as int, b.x as int, UNIT_MAX as int, UNIT_MAX as int);
    lemma_smul_bound(a.x as int, b.z as int, UNIT_MAX as int, UNIT_MAX as int);
    lemma_smul_bound(a.x as int, b.y as int, UNIT_MAX as int, UNIT_MAX as int);
    lemma_smul_bound(a.y as int, b.x as int, UNIT_MAX as int, UNIT_MAX as int);
    assert((UNIT_MAX as int) * (UNIT_MAX as int) / (SCALE as int) <= 0x5_0000int)
        by (nonlinear_arith)
        requires
            UNIT_MAX == 131328i64,
            SCALE == 65536i64,
    ;
}

} // verus!
