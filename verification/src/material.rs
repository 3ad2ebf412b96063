//! Materials and their scatter rules.
//!
//! `scatter` maps an incoming ray and a hit record to an attenuation color
//! and an outgoing ray, or to nothing when the path is absorbed. The random
//! inputs (a unit direction, a fuzz offset, a reflectance draw) come from the
//! generator handle, so the contracts name the drawn value existentially and
//! pin the output exactly as a function of it.

use vstd::prelude::*;
use crate::fx::{SCALE, iabs, smul, sdiv, ssqrt, fmul, fdiv, fsqrt, sclamp, lemma_smul_bound};
use crate::vec3::{
    Vec3, Color, vec_within, sv_dot, dot, normalize_spec, near_zero_spec, UNIT_MAX,
};
use crate::ray::{Ray, ray_within};
use crate::hit::{HitRecord, Normal, normal_vec};
use crate::texture::{Texture, texture_value, texture_value_spec, textures_ok, color_ok};
use crate::util::{
    reflect, reflect_spec, refract, refract_spec, reflectance, schlick_spec, neg_spec,
    random_unit_vector, random_in_unit_sphere, in_unit_sphere, lemma_unit_dot_bound,
};
use crate::rng::rand_unit;

verus! {

/// A diffuse material; its albedo is an index into the scene's texture
/// table, so one texture can back many surfaces.
#[derive(Clone, Copy, PartialEq, Eq, Structural, Debug)]
pub struct Lambertian {
    pub albedo: usize,
}

impl Lambertian {
    pub fn new(texture: usize) -> (r: Lambertian)
        ensures
            r == (Lambertian { albedo: texture }),
    {
        Lambertian { albedo: texture }
    }
}

/// A reflective material: an albedo color and a fuzz radius in `[0, 1]`.
#[derive(Clone, Copy, PartialEq, Eq, Structural, Debug)]
pub struct Metal {
    pub albedo: Color,
    pub fuzz: i64,
}

impl Metal {
    /// The fuzz radius is clamped into the unit interval at construction.
    pub fn new(color: Color, fuzz: i64) -> (r: Metal)
        requires
            color_ok(color),
        ensures
            r.albedo == color,
            r.fuzz == sclamp(fuzz as int, 0, SCALE as int),
            0 <= r.fuzz <= SCALE,
    {
        Metal { albedo: color, fuzz: crate::fx::fclamp(fuzz, 0, SCALE) }
    }
}

/// A clear material with a refractive index.
#[derive(Clone, Copy, PartialEq, Eq, Structural, Debug)]
pub struct Dielectric {
    pub ir: i64,
}

/// The refractive indices the tracer accepts, one sixteenth to sixteen.
pub open spec fn ir_ok(ir: int) -> bool {
    SCALE as int / 16 <= ir <= 16 * SCALE as int
}

impl Dielectric {
    pub fn new(ir: i64) -> (r: Dielectric)
        requires
            ir_ok(ir as int),
        ensures
            r == (Dielectric { ir }),
    {
        Dielectric { ir }
    }
}

#[derive(Clone, Copy, PartialEq, Eq, Structural, Debug)]
pub enum Material {
    Lambertian(Lambertian),
    Metal(Metal),
    Dielectric(Dielectric),
}

/// A material whose stored parameters are in the tracer's working domain.
pub open spec fn material_ok(m: Material) -> bool {
    match m {
        Material::Lambertian(l) => true,
        Material::Metal(mt) => color_ok(mt.albedo) && 0 <= mt.fuzz <= SCALE,
        Material::Dielectric(d) => ir_ok(d.ir as int),
    }
}

/// The hit-record fields a scatter call reads are in the working domain:
/// the stored normal is a capped unit vector and the point is reachable by a
/// bounded ray.
pub open spec fn rec_within(rec: HitRecord) -> bool {
    vec_within(normal_vec(rec.normal), UNIT_MAX as int) && vec_within(
        rec.point,
        crate::ray::POINT_MAX as int,
    )
}

/// The diffuse direction: the normal plus a unit vector, with the normal
/// alone as the fallback when the sum cancels to near zero.
pub open spec fn lambertian_dir(n: Vec3, w: Vec3) -> Vec3 {
    let d = Vec3 { x: (n.x + w.x) as i64, y: (n.y + w.y) as i64, z: (n.z + w.z) as i64 };
    if near_zero_spec(d) {
        n
    } else {
        d
    }
}

/// The metal direction: the mirror reflection of the unit incoming
/// direction, perturbed by `fuzz` times a point of the unit sphere.
pub open spec fn metal_dir(unit_in: Vec3, n: Vec3, w: Vec3, fuzz: int) -> Vec3 {
    let refl = reflect_spec(unit_in, n);
    Vec3 {
        x: (refl.x + smul(w.x as int, fuzz)) as i64,
        y: (refl.y + smul(w.y as int, fuzz)) as i64,
        z: (refl.z + smul(w.z as int, fuzz)) as i64,
    }
}

/// The refraction ratio a dielectric uses: the reciprocal of its index on a
/// front-face hit, the index itself from inside.
pub open spec fn dielectric_ratio(ir: int, front: bool) -> int {
    if front {
        sdiv(SCALE as int, ir)
    } else {
        ir
    }
}

/// The cosine of the angle of incidence, clamped from above at one.
pub open spec fn incidence_cos(unit_in: Vec3, n: Vec3) -> int {
    if sv_dot(neg_spec(unit_in), n) <= SCALE as int {
        sv_dot(neg_spec(unit_in), n)
    } else {
        SCALE as int
    }
}

/// Total internal reflection: the refracted angle's sine would exceed one.
pub open spec fn dielectric_tir(ir: int, front: bool, unit_in: Vec3, n: Vec3) -> bool {
    let ratio = dielectric_ratio(ir, front);
    let cos = incidence_cos(unit_in, n);
    let sin2 = SCALE - smul(cos, cos);
    sin2 >= 0 && smul(ratio, ssqrt(sin2)) > SCALE as int
}

/// The dielectric direction: reflect on total internal reflection or when
/// the Schlick reflectance exceeds the uniform draw, else refract.
pub open spec fn dielectric_dir(
    ir: int,
    front: bool,
    unit_in: Vec3,
    n: Vec3,
    draw: int,
) -> Vec3 {
    let ratio = dielectric_ratio(ir, front);
    let cos = incidence_cos(unit_in, n);
    if dielectric_tir(ir, front, unit_in, n) || schlick_spec(cos, ratio) > draw {
        reflect_spec(unit_in, n)
    } else {
        refract_spec(unit_in, n, ratio)
    }
}

/// What `scatter` promises, by material kind. Every outgoing ray starts at
/// the hit point and keeps the incoming ray's timestamp; the direction is an
/// exact function of the drawn randomness; the attenuation is the material's
/// own color (the texture's value for a diffuse surface, opaque white for a
/// clear one). A diffuse or clear surface never absorbs; a metal absorbs
/// exactly when the perturbed reflection points into the surface.
pub open spec fn scatter_ok(
    m: Material,
    texs: Seq<Texture>,
    ray: Ray,
    rec: HitRecord,
    res: Option<(Color, Ray)>,
) -> bool {
    let n = normal_vec(rec.normal);
    match m {
        Material::Lambertian(l) => match res {
            Some((att, sc)) => {
                &&& att == texture_value_spec(texs, l.albedo as int, rec.u as int, rec.v as int, rec.point)
                &&& sc.orig == rec.point
                &&& sc.time == ray.time
                &&& exists|w: Vec3|
                    vec_within(w, UNIT_MAX as int) && sc.dir == #[trigger] lambertian_dir(n, w)
            },
            None => false,
        },
        Material::Metal(mt) => match res {
            Some((att, sc)) => {
                &&& att == mt.albedo
                &&& sc.orig == rec.point
                &&& sc.time == ray.time
                &&& sv_dot(sc.dir, n) > 0
                &&& exists|w: Vec3|
                    in_unit_sphere(w) && sc.dir == #[trigger] metal_dir(
                        normalize_spec(ray.dir),
                        n,
                        w,
                        mt.fuzz as int,
                    )
            },
            None => exists|w: Vec3|
                in_unit_sphere(w) && sv_dot(
                    #[trigger] metal_dir(normalize_spec(ray.dir), n, w, mt.fuzz as int),
                    n,
                ) <= 0,
        },
        Material::Dielectric(d) => match res {
            Some((att, sc)) => {
                &&& att == (Vec3 { x: SCALE, y: SCALE, z: SCALE })
                &&& sc.orig == rec.point
                &&& sc.time == ray.time
                &&& exists|draw: int|
                    0 <= draw < SCALE && sc.dir == #[trigger] dielectric_dir(
                        d.ir as int,
                        rec.normal is Front,
                        normalize_spec(ray.dir),
                        n,
                        draw,
                    )
            },
            None => false,
        },
    }
}

impl Material {
    /// Scatter the ray at the hit, drawing whatever randomness the material
    /// kind calls for.
    pub fn scatter(
        &self,
        textures: &Vec<Texture>,
        ray: &Ray,
        rec: &HitRecord,
        rng: &mut rand::rngs::StdRng,
    ) -> (res: Option<(Color, Ray)>)
        requires
            material_ok(*self),
            ray_within(*ray),
            rec_within(*rec),
        ensures
            scatter_ok(*self, textures@, *ray, *rec, res),
            *self matches Material::Metal(mt) && mt.fuzz == 0 ==> (match res {
                Some((att, sc)) => sc.dir == reflect_spec(
                    normalize_spec(ray.dir),
                    normal_vec(rec.normal),
                ),
                None => sv_dot(
                    reflect_spec(normalize_spec(ray.dir), normal_vec(rec.normal)),
                    normal_vec(rec.normal),
                ) <= 0,
            }),
            textures_ok(textures@) ==> (match res {
                Some((att, sc)) => color_ok(att),
                None => true,
            }),
    {
        let n = rec.normal();
        match self {
            Material::Lambertian(l) => {
                let w = random_unit_vector(rng);
                let sum = Vec3 { x: n.x + w.x, y: n.y + w.y, z: n.z + w.z };
                let direction = if sum.near_zero() {
                    n
                } else {
                    sum
                };
                let att = texture_value(textures, l.albedo, rec.u, rec.v, &rec.point);
                proof {
                    assert(vec_within(w, UNIT_MAX as int) && direction == lambertian_dir(
                        normal_vec(rec.normal),
                        w,
                    ));
                    if textures_ok(textures@) {
                        crate::texture::lemma_texture_value_ok(
                            textures@,
                            l.albedo as int,
                            rec.u as int,
                            rec.v as int,
                            rec.point,
                        );
                    }
                }
                Some((att, Ray { orig: rec.point, dir: direction, time: ray.time }))
            },
            Material::Metal(mt) => {
                let unit = ray.dir.normalize();
                let refl = reflect(&unit, &n);
                let w = random_in_unit_sphere(rng);
                proof {
                    lemma_smul_bound(w.x as int, mt.fuzz as int, SCALE as int, SCALE as int);
                    lemma_smul_bound(w.y as int, mt.fuzz as int, SCALE as int, SCALE as int);
                    lemma_smul_bound(w.z as int, mt.fuzz as int, SCALE as int, SCALE as int);
                }
                let direction = Vec3 {
                    x: refl.x + fmul(w.x, mt.fuzz),
                    y: refl.y + fmul(w.y, mt.fuzz),
                    z: refl.z + fmul(w.z, mt.fuzz),
                };
                proof {
                    assert(in_unit_sphere(w) && direction == metal_dir(
                        normalize_spec(ray.dir),
                        normal_vec(rec.normal),
                        w,
                        mt.fuzz as int,
                    ));
                    if mt.fuzz == 0 {
                        lemma_zero_fuzz(w.x as int);
                        lemma_zero_fuzz(w.y as int);
                        lemma_zero_fuzz(w.z as int);
                    }
                }
                let d = dot(&direction, &n);
                if d > 0 {
                    Some((mt.albedo, Ray { orig: rec.point, dir: direction, time: ray.time }))
                } else {
                    None
                }
            },
            Material::Dielectric(d) => {
                let front = match rec.normal {
                    Normal::Front(_) => true,
                    Normal::Back(_) => false,
                };
                let ratio = if front {
                    proof {
                        lemma_ratio_ok(d.ir as int);
                    }
                    fdiv(SCALE, d.ir)
                } else {
                    d.ir
                };
                let unit = ray.dir.normalize();
                let neg_unit = unit.neg();
                let dcos = dot(&neg_unit, &n);
                let cos = if dcos <= SCALE {
                    dcos
                } else {
                    SCALE
                };
                proof {
                    lemma_unit_dot_bound(neg_spec(normalize_spec(ray.dir)), normal_vec(rec.normal));
                    lemma_smul_bound(cos as int, cos as int, 0x10_0000int, 0x10_0000int);
                }
                let sin2 = SCALE - fmul(cos, cos);
                let cannot_refract = if sin2 >= 0 {
                    proof {
                        lemma_sin_small(cos as int);
                    }
                    let sq = fsqrt(sin2);
                    proof {
                        lemma_smul_bound(ratio as int, sq as int, 0x10_0000int, 0x1_0000int);
                    }
                    fmul(ratio, sq) > SCALE
                } else {
                    false
                };
                let draw = rand_unit(rng);
                let direction = if cannot_refract || reflectance(cos, ratio) > draw {
                    reflect(&unit, &n)
                } else {
                    refract(&unit, &n, ratio)
                };
                proof {
                    assert(0 <= draw < SCALE && direction == dielectric_dir(
                        d.ir as int,
                        rec.normal is Front,
                        normalize_spec(ray.dir),
                        normal_vec(rec.normal),
                        draw as int,
                    ));
                }
                Some(
                    (
                        Vec3 { x: SCALE, y: SCALE, z: SCALE },
                        Ray { orig: rec.point, dir: direction, time: ray.time },
                    ),
                )
            },
        }
    }
}

/// Scaling by a fuzz of zero contributes nothing.
proof fn lemma_zero_fuzz(w: int)
    ensures
        smul(w, 0) == 0,
{
    assert(w * 0 == 0) by (nonlinear_arith);
    vstd::arithmetic::div_mod::lemma_div_of0(SCALE as int);
}

/// The reciprocal refraction ratio stays in the accepted index range.
proof fn lemma_ratio_ok(ir: int)
    requires
        ir_ok(ir),
    ensures
        ir_ok(sdiv(SCALE as int, ir)),
        0 < sdiv(SCALE as int, ir),
        iabs(sdiv(SCALE as int, ir)) <= i64::MAX,
{
    let s = SCALE as int;
    crate::fx::lemma_tdiv_nonneg(s * s, ir);
    vstd::arithmetic::div_mod::lemma_div_is_ordered_by_denominator(s * s, s / 16, ir);
    vstd::arithmetic::div_mod::lemma_div_is_ordered_by_denominator(s * s, ir, 16 * s);
    assert((s * s) / (s / 16) == 16 * s) by (nonlinear_arith)
        requires
            s == 65536,
    ;
    assert((s * s) / (16 * s) == s / 16) by (nonlinear_arith)
        requires
            s == 65536,
    ;
}

/// The sine estimate stays within one when the squared cosine does.
proof fn lemma_sin_small(cos: int)
    requires
        SCALE - smul(cos, cos) >= 0,
    ensures
        SCALE - smul(cos, cos) <= SCALE,
{
    crate::vec3::lemma_square_term_nonneg(cos);
}

/// At normal incidence a clear surface never totally internally reflects,
/// and refracts whenever the reflectance draw does not pick reflection: with
/// the cosine at one the refracted sine is zero, so the total-internal-
/// reflection test cannot fire for any refraction ratio.
pub proof fn lemma_normal_incidence_refracts(
    ir: int,
    front: bool,
    unit_in: Vec3,
    n: Vec3,
    draw: int,
)
    requires
        ir_ok(ir),
        sv_dot(neg_spec(unit_in), n) >= SCALE as int,
        schlick_spec(SCALE as int, dielectric_ratio(ir, front)) <= draw,
    ensures
        !dielectric_tir(ir, front, unit_in, n),
        dielectric_dir(ir, front, unit_in, n, draw) == refract_spec(
            unit_in,
            n,
            dielectric_ratio(ir, front),
        ),
{
    let s = SCALE as int;
    let ratio = dielectric_ratio(ir, front);
    assert(incidence_cos(unit_in, n) == s);
    assert(smul(s, s) == s) by {
        vstd::arithmetic::div_mod::lemma_div_multiples_vanish(s, s);
        vstd::arithmetic::mul::lemma_mul_is_commutative(s, s);
    };
    assert(ssqrt(0) == 0) by {
        assert(crate::fx::is_sqrt_floor(0, 0)) by (nonlinear_arith);
        crate::fx::lemma_sqrt_floor_unique(0, 0);
    };
    assert(smul(ratio, 0) == 0) by {
        assert(ratio * 0 == 0) by (nonlinear_arith);
        vstd::arithmetic::div_mod::lemma_div_of0(s);
    };
}

} // verus!
