//! The light-transport integrator.
//!
//! `ray_color` intersects the ray against the scene over the range from the
//! self-intersection epsilon to the numeric horizon; on a hit it asks the
//! material to scatter, recurses with one less bounce and attenuates the
//! result; on a miss it returns the sky gradient. A bounce budget of zero is
//! black, which bounds the recursion.

use vstd::prelude::*;
use crate::fx::{SCALE, smul, tdiv, fmul, tdiv128, sclamp, lemma_tdiv_nonneg};
use crate::vec3::{Vec3, Color, normalize_spec};
use crate::ray::{Ray, ray_within, T_MAX};
use crate::hit::{is_nearest_hit, lemma_nearest_hit_unique, lemma_prim_hit_within, prim_hit_spec};
use crate::bvh::{BVH, bvh_wf, bvh_hit_spec, leaves, all_covered};
use crate::texture::{Texture, textures_ok, color_ok};
use crate::material::{Material, material_ok, scatter_ok, rec_within};

verus! {

/// The self-intersection epsilon: queries start just past the ray origin so
/// a bounce does not immediately re-hit its own surface (one thousandth of a
/// unit, rounded up to fixed point).
pub const T_EPS: i64 = 66;

/// A fully assembled scene: the texture and material tables the primitives
/// index into, and the tree built over the primitives.
pub struct Scene {
    pub textures: Vec<Texture>,
    pub materials: Vec<Material>,
    pub world: BVH,
}

pub open spec fn scene_wf(s: Scene) -> bool {
    &&& bvh_wf(s.world)
    &&& textures_ok(s.textures@)
    &&& forall|i: int| 0 <= i < s.materials@.len() ==> material_ok(#[trigger] s.materials@[i])
}

impl Scene {
    pub fn new(textures: Vec<Texture>, materials: Vec<Material>, world: BVH) -> (r: Scene)
        requires
            bvh_wf(world),
            textures_ok(textures@),
            forall|i: int| 0 <= i < materials@.len() ==> material_ok(#[trigger] materials@[i]),
        ensures
            r.textures == textures,
            r.materials == materials,
            r.world == world,
            scene_wf(r),
    {
        Scene { textures, materials, world }
    }
}

pub open spec fn black() -> Color {
    Vec3 { x: 0, y: 0, z: 0 }
}

/// The sky: a vertical gradient from white at the horizon to light blue at
/// the zenith, keyed by the unit direction's vertical component remapped
/// from `[-1, 1]` to `[0, 1]` (and clamped, since the fixed-point unit
/// vector can overshoot one by a rounding step).
pub open spec fn background_spec(r: Ray) -> Color {
    let unit = normalize_spec(r.dir);
    let t = sclamp(tdiv(unit.y + SCALE, 2), 0, SCALE as int);
    Vec3 {
        x: (SCALE - t + smul(t, 32768)) as i64,
        y: (SCALE - t + smul(t, 45875)) as i64,
        z: (SCALE - t + smul(t, SCALE as int)) as i64,
    }
}

/// The sky color for a ray that hits nothing.
pub fn background(ray: &Ray) -> (c: Color)
    requires
        ray_within(*ray),
    ensures
        c == background_spec(*ray),
        color_ok(c),
{
    let unit = ray.dir.normalize();
    let t = crate::fx::fclamp(tdiv128((unit.y as i128) + (SCALE as i128), 2) as i64, 0, SCALE);
    proof {
        lemma_blend_ok(t as int, 32768);
        lemma_blend_ok(t as int, 45875);
        lemma_blend_ok(t as int, SCALE as int);
    }
    Vec3 {
        x: SCALE - t + fmul(t, 32768),
        y: SCALE - t + fmul(t, 45875),
        z: SCALE - t + fmul(t, SCALE),
    }
}

/// Blending toward a unit-interval component stays in the unit interval.
proof fn lemma_blend_ok(t: int, c: int)
    requires
        0 <= t <= SCALE,
        0 <= c <= SCALE,
    ensures
        0 <= smul(t, c) <= t,
        0 <= SCALE - t + smul(t, c) <= SCALE,
{
    let s = SCALE as int;
    lemma_tdiv_nonneg(t * c, s);
    vstd::arithmetic::mul::lemma_mul_nonnegative(t, c);
    vstd::arithmetic::mul::lemma_mul_inequality(c, s, t);
    vstd::arithmetic::mul::lemma_mul_is_commutative(t, c);
    vstd::arithmetic::mul::lemma_mul_is_commutative(t, s);
    vstd::arithmetic::div_mod::lemma_div_is_ordered(t * c, t * s, s);
    vstd::arithmetic::div_mod::lemma_div_multiples_vanish(t, s);
}

/// The recursive relation between a ray and the radiance the integrator
/// returns for it with `depth` bounces left: at depth zero, black; on a miss
/// of the scene walk, the sky gradient; on a hit, an admissible scatter
/// outcome decides — absorption gives black, and a scattered ray gives the
/// attenuated radiance of a recursive bounce (black when the scattered ray
/// leaves the numeric domain, or when the record's material index lies
/// outside the table; a well-indexed scene produces neither).
pub open spec fn radiance_rel(scene: Scene, ray: Ray, depth: int, c: Color) -> bool
    decreases depth,
{
    if depth <= 0 {
        c == black()
    } else {
        match bvh_hit_spec(scene.world, ray, T_EPS as int, T_MAX as int) {
            None => c == background_spec(ray),
            Some(rec) => {
                if rec.material >= scene.materials@.len() {
                    c == black()
                } else {
                    exists|outcome: Option<(Color, Ray)>|
                        #[trigger] scatter_ok(
                            scene.materials@[rec.material as int],
                            scene.textures@,
                            ray,
                            rec,
                            outcome,
                        ) && match outcome {
                            None => c == black(),
                            Some((att, sc)) => if ray_within(sc) {
                                exists|inner: Color|
                                    color_ok(inner) && radiance_rel(scene, sc, depth - 1, inner)
                                        && c == #[trigger] attenuate_spec(att, inner)
                            } else {
                                c == black()
                            },
                        }
                }
            },
        }
    }
}

/// Componentwise attenuation of one color by another.
pub open spec fn attenuate_spec(a: Color, c: Color) -> Color {
    Vec3 {
        x: smul(a.x as int, c.x as int) as i64,
        y: smul(a.y as int, c.y as int) as i64,
        z: smul(a.z as int, c.z as int) as i64,
    }
}

fn attenuate(a: Color, c: Color) -> (r: Color)
    requires
        color_ok(a),
        color_ok(c),
    ensures
        r == attenuate_spec(a, c),
        color_ok(r),
{
    proof {
        lemma_blend_ok(a.x as int, c.x as int);
        lemma_blend_ok(a.y as int, c.y as int);
        lemma_blend_ok(a.z as int, c.z as int);
    }
    Vec3 { x: fmul(a.x, c.x), y: fmul(a.y, c.y), z: fmul(a.z, c.z) }
}

/// The radiance a ray gathers, with at most `depth` bounces.
///
/// A budget of zero is black for any ray and scene. The result is always a
/// unit-interval color. When every primitive satisfies the pruning
/// hypothesis and none of them hits the ray at all, the result is exactly
/// the sky gradient. A hit whose material index lies outside the material
/// table, or whose scattered ray leaves the numeric domain, is treated as
/// absorbed; neither can arise from a scene whose tables the primitives
/// index correctly.
pub fn ray_color(scene: &Scene, ray: &Ray, depth: usize, rng: &mut rand::rngs::StdRng) -> (c:
    Color)
    requires
        scene_wf(*scene),
        ray_within(*ray),
    ensures
        color_ok(c),
        depth == 0 ==> c == black(),
        radiance_rel(*scene, *ray, depth as int, c),
        depth > 0 && all_covered(leaves(scene.world), *ray) && is_nearest_hit(
            leaves(scene.world),
            *ray,
            T_EPS as int,
            T_MAX as int,
            None,
        ) ==> c == background_spec(*ray),
    decreases depth,
{
    if depth == 0 {
        return Vec3 { x: 0, y: 0, z: 0 };
    }
    let res = scene.world.hit(ray, T_EPS, T_MAX);
    match res {
        Some(rec) => {
            proof {
                if all_covered(leaves(scene.world), *ray) && is_nearest_hit(
                    leaves(scene.world),
                    *ray,
                    T_EPS as int,
                    T_MAX as int,
                    None,
                ) {
                    lemma_nearest_hit_unique(
                        leaves(scene.world),
                        *ray,
                        T_EPS as int,
                        T_MAX as int,
                        res,
                        None,
                    );
                }
            }
            proof {
                // The record is some primitive's hit, so its normal and
                // point are in the working domain the materials expect.
                let lv = leaves(scene.world);
                let i = choose|i: int|
                    0 <= i < lv.len() && #[trigger] prim_hit_spec(
                        lv[i],
                        *ray,
                        T_EPS as int,
                        T_MAX as int,
                    ) == Some(rec);
                lemma_prim_hit_within(lv[i], *ray, T_EPS as int, T_MAX as int);
                assert(rec_within(rec));
            }
            if rec.material >= scene.materials.len() {
                return Vec3 { x: 0, y: 0, z: 0 };
            }
            let mat = scene.materials[rec.material];
            let res2 = mat.scatter(&scene.textures, ray, &rec, rng);
            proof {
                assert(scatter_ok(
                    scene.materials@[rec.material as int],
                    scene.textures@,
                    *ray,
                    rec,
                    res2,
                ));
            }
            match res2 {
                Some((att, scattered)) => {
                    if scattered.in_domain() {
                        let inner = ray_color(scene, &scattered, depth - 1, rng);
                        let c = attenuate(att, inner);
                        proof {
                            assert(color_ok(inner) && radiance_rel(
                                *scene,
                                scattered,
                                depth - 1,
                                inner,
                            ) && c == attenuate_spec(att, inner));
                        }
                        c
                    } else {
                        Vec3 { x: 0, y: 0, z: 0 }
                    }
                },
                None => Vec3 { x: 0, y: 0, z: 0 },
            }
        },
        None => background(ray),
    }
}

} // verus!
