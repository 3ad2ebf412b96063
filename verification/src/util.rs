//! Scattering math and the rejection-sampled random directions.

use vstd::prelude::*;
use crate::fx::{SCALE, iabs, smul, sdiv, ssqrt, fmul, fdiv, fsqrt, lemma_smul_bound};
use crate::vec3::{Vec3, vec_within, sv_dot, dot, normalize_spec, UNIT_MAX};
use crate::rng::rand_range;

verus! {

/// Componentwise bound on the vectors the scattering math accepts: unit-ish
/// vectors and everything the fixed-point unit routines can produce.
pub const SCATTER_ARG_MAX: i64 = 0x10_0000;

/// Mirror reflection about a normal: `v - 2 (v.n) n`.
pub open spec fn reflect_spec(v: Vec3, n: Vec3) -> Vec3 {
    let d = sv_dot(v, n);
    Vec3 {
        x: (v.x - smul(n.x as int, 2 * d)) as i64,
        y: (v.y - smul(n.y as int, 2 * d)) as i64,
        z: (v.z - smul(n.z as int, 2 * d)) as i64,
    }
}

pub fn reflect(v: &Vec3, normal: &Vec3) -> (r: Vec3)
    requires
        vec_within(*v, SCATTER_ARG_MAX as int),
        vec_within(*normal, SCATTER_ARG_MAX as int),
    ensures
        r == reflect_spec(*v, *normal),
        vec_within(r, 0x1000_0000_0000int),
        vec_within(*v, UNIT_MAX as int) && vec_within(*normal, UNIT_MAX as int) ==> vec_within(
            r,
            0x80_0000int,
        ),
{
    proof {
        lemma_scatter_dot_bound(*v, *normal);
        lemma_smul_bound(normal.x as int, 2 * sv_dot(*v, *normal), SCATTER_ARG_MAX as int, 0x80_0000_0000int);
        lemma_smul_bound(normal.y as int, 2 * sv_dot(*v, *normal), SCATTER_ARG_MAX as int, 0x80_0000_0000int);
        lemma_smul_bound(normal.z as int, 2 * sv_dot(*v, *normal), SCATTER_ARG_MAX as int, 0x80_0000_0000int);
        if vec_within(*v, UNIT_MAX as int) && vec_within(*normal, UNIT_MAX as int) {
            lemma_unit_dot_bound(*v, *normal);
            lemma_smul_bound(normal.x as int, 2 * sv_dot(*v, *normal), UNIT_MAX as int, 0x20_0000int);
            lemma_smul_bound(normal.y as int, 2 * sv_dot(*v, *normal), UNIT_MAX as int, 0x20_0000int);
            lemma_smul_bound(normal.z as int, 2 * sv_dot(*v, *normal), UNIT_MAX as int, 0x20_0000int);
        }
    }
    let d = dot(v, normal);
    Vec3 {
        x: v.x - fmul(normal.x, 2 * d),
        y: v.y - fmul(normal.y, 2 * d),
        z: v.z - fmul(normal.z, 2 * d),
    }
}

/// The dot product of two scatter-domain vectors is small.
proof fn lemma_scatter_dot_bound(v: Vec3, n: Vec3)
    requires
        vec_within(v, SCATTER_ARG_MAX as int),
        vec_within(n, SCATTER_ARG_MAX as int),
    ensures
        iabs(sv_dot(v, n)) <= 0x40_0000_0000int,
{
    lemma_smul_bound(v.x as int, n.x as int, SCATTER_ARG_MAX as int, SCATTER_ARG_MAX as int);
    lemma_smul_bound(v.y as int, n.y as int, SCATTER_ARG_MAX as int, SCATTER_ARG_MAX as int);
    lemma_smul_bound(v.z as int, n.z as int, SCATTER_ARG_MAX as int, SCATTER_ARG_MAX as int);
}

/// Refraction by the vector form of Snell's law. `cos` is clamped from above
/// at one; the magnitude under the square root absorbs the rounding that can
/// push the perpendicular part's squared length past one.
pub open spec fn refract_spec(v: Vec3, n: Vec3, etai_over_etat: int) -> Vec3 {
    let cos = if sv_dot(neg_spec(v), n) <= SCALE as int {
        sv_dot(neg_spec(v), n)
    } else {
        SCALE as int
    };
    let px = smul(v.x + smul(n.x as int, cos), etai_over_etat);
    let py = smul(v.y + smul(n.y as int, cos), etai_over_etat);
    let pz = smul(v.z + smul(n.z as int, cos), etai_over_etat);
    let len2 = smul(px, px) + smul(py, py) + smul(pz, pz);
    let par = -ssqrt(iabs(SCALE - len2));
    Vec3 {
        x: (smul(n.x as int, par) + px) as i64,
        y: (smul(n.y as int, par) + py) as i64,
        z: (smul(n.z as int, par) + pz) as i64,
    }
}

pub open spec fn neg_spec(v: Vec3) -> Vec3 {
    Vec3 { x: (-v.x) as i64, y: (-v.y) as i64, z: (-v.z) as i64 }
}

pub fn refract(v: &Vec3, normal: &Vec3, etai_over_etat: i64) -> (r: Vec3)
    requires
        vec_within(*v, UNIT_MAX as int),
        vec_within(*normal, UNIT_MAX as int),
        0 < etai_over_etat <= SCATTER_ARG_MAX,
    ensures
        r == refract_spec(*v, *normal, etai_over_etat as int),
        vec_within(r, 0x1_0000_0000int),
{
    let neg_v = v.neg();
    let d = dot(&neg_v, normal);
    let cos = if d <= SCALE {
        d
    } else {
        SCALE
    };
    proof {
        lemma_unit_dot_bound(neg_spec(*v), *normal);
        lemma_smul_bound(normal.x as int, cos as int, UNIT_MAX as int, 0x10_0000int);
        lemma_smul_bound(normal.y as int, cos as int, UNIT_MAX as int, 0x10_0000int);
        lemma_smul_bound(normal.z as int, cos as int, UNIT_MAX as int, 0x10_0000int);
    }
    let cx = fmul(normal.x, cos);
    let cy = fmul(normal.y, cos);
    let cz = fmul(normal.z, cos);
    proof {
        lemma_smul_bound(v.x + cx, etai_over_etat as int, 0x40_0000int, 0x10_0000int);
        lemma_smul_bound(v.y + cy, etai_over_etat as int, 0x40_0000int, 0x10_0000int);
        lemma_smul_bound(v.z + cz, etai_over_etat as int, 0x40_0000int, 0x10_0000int);
    }
    let px = fmul(v.x + cx, etai_over_etat);
    let py = fmul(v.y + cy, etai_over_etat);
    let pz = fmul(v.z + cz, etai_over_etat);
    proof {
        lemma_smul_bound(px as int, px as int, 0x400_0000int, 0x400_0000int);
        lemma_smul_bound(py as int, py as int, 0x400_0000int, 0x400_0000int);
        lemma_smul_bound(pz as int, pz as int, 0x400_0000int, 0x400_0000int);
    }
    let len2 = fmul(px, px) + fmul(py, py) + fmul(pz, pz);
    let under = if SCALE >= len2 {
        SCALE - len2
    } else {
        len2 - SCALE
    };
    let par = -fsqrt(under);
    proof {
        crate::vec3::lemma_sqrt_floor_unique_converse((under as int) * (SCALE as int), -par as int);
        assert(iabs(par as int) <= 0x1000_0000int) by (nonlinear_arith)
            requires
                (-par as int) * (-par as int) <= (under as int) * (SCALE as int),
                0 <= under <= 0x80_0000_0000i64,
                SCALE == 65536i64,
                par <= 0,
        ;
        lemma_smul_bound(normal.x as int, par as int, UNIT_MAX as int, 0x1000_0000int);
        lemma_smul_bound(normal.y as int, par as int, UNIT_MAX as int, 0x1000_0000int);
        lemma_smul_bound(normal.z as int, par as int, UNIT_MAX as int, 0x1000_0000int);
    }
    Vec3 {
        x: fmul(normal.x, par) + px,
        y: fmul(normal.y, par) + py,
        z: fmul(normal.z, par) + pz,
    }
}

/// The dot product of two unit-domain vectors is small.
pub proof fn lemma_unit_dot_bound(v: Vec3, n: Vec3)
    requires
        vec_within(v, UNIT_MAX as int),
        vec_within(n, UNIT_MAX as int),
    ensures
        iabs(sv_dot(v, n)) <= 0x10_0000int,
{
    lemma_smul_bound(v.x as int, n.x as int, UNIT_MAX as int, UNIT_MAX as int);
    lemma_smul_bound(v.y as int, n.y as int, UNIT_MAX as int, UNIT_MAX as int);
    lemma_smul_bound(v.z as int, n.z as int, UNIT_MAX as int, UNIT_MAX as int);
    assert((UNIT_MAX as int) * (UNIT_MAX as int) / (SCALE as int) <= 0x5_0000int)
        by (nonlinear_arith)
        requires
            UNIT_MAX == 131328i64,
            SCALE == 65536i64,
    ;
}

/// Schlick's reflectance approximation:
/// `r0 + (1 - r0) (1 - cos)^5` with `r0 = ((1 - k) / (1 + k))^2`.
pub open spec fn schlick_spec(cosine: int, ref_idx: int) -> int {
    let r0s = sdiv(SCALE - ref_idx, SCALE + ref_idx);
    let r0 = smul(r0s, r0s);
    let q = SCALE - cosine;
    let q2 = smul(q, q);
    let q4 = smul(q2, q2);
    let q5 = smul(q4, q);
    r0 + smul(SCALE - r0, q5)
}

pub fn reflectance(cosine: i64, ref_idx: i64) -> (r: i64)
    requires
        iabs(cosine as int) <= 0x20_0000,
        SCALE / 16 <= ref_idx <= 16 * SCALE,
    ensures
        r as int == schlick_spec(cosine as int, ref_idx as int),
{
    proof {
        let s = SCALE as int;
        // The base reflectance is at most one: the numerator's magnitude is
        // below the denominator.
        assert(iabs((s - ref_idx) * s) <= (s + ref_idx) * s) by (nonlinear_arith)
            requires
                s == 65536,
                0 < ref_idx,
        ;
        crate::fx::lemma_tdiv_bound((s - ref_idx) * s, s + ref_idx, (s + ref_idx) * s);
        vstd::arithmetic::div_mod::lemma_div_multiples_vanish(s, s + ref_idx);
        vstd::arithmetic::mul::lemma_mul_is_commutative(s + ref_idx, s);
        let r0s = sdiv(s - ref_idx, s + ref_idx);
        assert(iabs(r0s) <= s);
        lemma_smul_bound(r0s, r0s, 65536int, 65536int);
        let r0 = smul(r0s, r0s);
        let q = s - cosine;
        lemma_smul_bound(q, q, 0x40_0000int, 0x40_0000int);
        let q2 = smul(q, q);
        lemma_smul_bound(q2, q2, 0x1000_0000int, 0x1000_0000int);
        let q4 = smul(q2, q2);
        lemma_smul_bound(q4, q, 0x100_0000_0000int, 0x40_0000int);
        let q5 = smul(q4, q);
        lemma_smul_bound(s - r0, q5, 0x2_0000int, 0x4000_0000_0000int);
    }
    let r0s = fdiv(SCALE - ref_idx, SCALE + ref_idx);
    let r0 = fmul(r0s, r0s);
    let q = SCALE - cosine;
    let q2 = fmul(q, q);
    let q4 = fmul(q2, q2);
    let q5 = fmul(q4, q);
    r0 + fmul(SCALE - r0, q5)
}

/// A point strictly inside (or on) the unit sphere.
pub open spec fn in_unit_sphere(p: Vec3) -> bool {
    vec_within(p, SCALE as int) && sv_dot(p, p) <= SCALE as int
}

/// How many rejected draws the samplers tolerate before falling back to the
/// sphere's center; at better than even odds per draw, reaching it is
/// vanishingly rare.
pub const SAMPLE_TRIES: u32 = 64;

/// Rejection sampling: draw points of the cube `[-1, 1)^3` until one falls
/// inside the unit sphere (the center on the remote chance every try fails).
pub fn random_in_unit_sphere(rng: &mut rand::rngs::StdRng) -> (p: Vec3)
    ensures
        in_unit_sphere(p),
{
    let mut tries: u32 = 0;
    while tries < SAMPLE_TRIES
        invariant
            true,
        decreases SAMPLE_TRIES - tries,
    {
        let x = rand_range(rng, -SCALE, SCALE);
        let y = rand_range(rng, -SCALE, SCALE);
        let z = rand_range(rng, -SCALE, SCALE);
        let p = Vec3 { x, y, z };
        let l2 = p.length_squared();
        if l2 <= SCALE {
            return p;
        }
        tries = tries + 1;
    }
    Vec3 { x: 0, y: 0, z: 0 }
}

/// Rejection sampling on the lens disk: a point of the unit disk, `z = 0`.
pub fn random_in_unit_disk(rng: &mut rand::rngs::StdRng) -> (p: Vec3)
    ensures
        in_unit_sphere(p),
        p.z == 0,
{
    let mut tries: u32 = 0;
    while tries < SAMPLE_TRIES
        invariant
            true,
        decreases SAMPLE_TRIES - tries,
    {
        let x = rand_range(rng, -SCALE, SCALE);
        let y = rand_range(rng, -SCALE, SCALE);
        let p = Vec3 { x, y, z: 0 };
        let l2 = p.length_squared();
        if l2 <= SCALE {
            return p;
        }
        tries = tries + 1;
    }
    Vec3 { x: 0, y: 0, z: 0 }
}

/// A random direction on (close to) the unit sphere's surface: a point
/// inside it, normalized.
pub fn random_unit_vector(rng: &mut rand::rngs::StdRng) -> (r: Vec3)
    ensures
        vec_within(r, UNIT_MAX as int),
        exists|p: Vec3| in_unit_sphere(p) && r == normalize_spec(p),
{
    let p = random_in_unit_sphere(rng);
    let r = p.normalize();
    proof {
        assert(in_unit_sphere(p) && r == normalize_spec(p));
    }
    r
}

} // verus!
