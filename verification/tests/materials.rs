//! Scatter behavior of the three material kinds, and textures.

use raytrace::fx::SCALE;
use raytrace::vec3::Vec3;
use raytrace::ray::Ray;
use raytrace::hit::{HitRecord, Normal};
use raytrace::material::{Material, Lambertian, Metal, Dielectric};
use raytrace::texture::{Texture, SolidColor, Checker, texture_value};
use raytrace::util::{reflect, refract, reflectance};
use raytrace::fx::{fmul, fsqrt};
use raytrace::rng::rng_from_seed;

const S: i64 = SCALE;

fn v(x: i64, y: i64, z: i64) -> Vec3 {
    Vec3 { x, y, z }
}

fn front_hit(point: Vec3, normal: Vec3, material: usize) -> HitRecord {
    HitRecord { point, t: S, normal: Normal::Front(normal), material, u: 0, v: 0 }
}

#[test]
fn reflect_is_exact_mirror() {
    let r = reflect(&v(S, -S, 0), &v(0, S, 0));
    assert_eq!(r, v(S, S, 0));
}

#[test]
fn metal_without_fuzz_reflects_exactly() {
    let textures: Vec<Texture> = vec![];
    let m = Material::Metal(Metal::new(v(S, S / 2, S / 4), 0));
    let rec = front_hit(v(0, 0, 0), v(0, 0, S), 0);
    let ray = Ray::new(v(0, 0, S), v(0, 0, -S), 0);
    let mut rng = rng_from_seed(1);
    let (att, sc) = m.scatter(&textures, &ray, &rec, &mut rng).expect("head-on metal scatters");
    assert_eq!(att, v(S, S / 2, S / 4));
    // The scattered direction is the exact mirror reflection, with no
    // stochastic term.
    assert_eq!(sc.dir, reflect(&v(0, 0, -S), &v(0, 0, S)));
    assert_eq!(sc.dir, v(0, 0, S));
    assert_eq!(sc.orig, v(0, 0, 0));
    assert_eq!(sc.time, ray.time);
}

#[test]
fn metal_absorbs_when_reflection_points_inward() {
    let textures: Vec<Texture> = vec![];
    let m = Material::Metal(Metal::new(v(S, S, S), 0));
    let rec = front_hit(v(0, 0, 0), v(0, 0, S), 0);
    // The incoming ray travels along the normal, so its mirror image points
    // into the surface.
    let ray = Ray::new(v(0, 0, -S), v(0, 0, S), 0);
    let mut rng = rng_from_seed(1);
    assert!(m.scatter(&textures, &ray, &rec, &mut rng).is_none());
}

#[test]
fn metal_fuzz_is_clamped() {
    let m = Metal::new(v(S, S, S), 3 * S);
    assert_eq!(m.fuzz, S);
    let m2 = Metal::new(v(S, S, S), -S);
    assert_eq!(m2.fuzz, 0);
}

#[test]
fn dielectric_normal_incidence_refracts() {
    let ir = 98304;  // 1.5
    let ratio = 43690;  // 1 / 1.5 in fixed point, truncated
    // No total internal reflection at normal incidence: the refracted sine
    // is exactly zero.
    let sin2 = S - fmul(S, S);
    assert_eq!(sin2, 0);
    assert!(fmul(ratio, fsqrt(sin2)) <= S);
    // And the refracted direction continues straight through.
    assert_eq!(refract(&v(0, 0, -S), &v(0, 0, S), ratio), v(0, 0, -S));
    // The reflectance at normal incidence leaves refraction the likely
    // outcome (about four percent of draws reflect).
    let r = reflectance(S, ratio);
    assert!(0 <= r && r < S / 8);
    // The scatter itself never absorbs and always yields the mirror or the
    // straight-through direction.
    let textures: Vec<Texture> = vec![];
    let m = Material::Dielectric(Dielectric::new(ir));
    let rec = front_hit(v(0, 0, 0), v(0, 0, S), 0);
    let ray = Ray::new(v(0, 0, S), v(0, 0, -S), 0);
    let mut refracted = 0u32;
    for seed in 0..40u64 {
        let mut rng = rng_from_seed(seed);
        let (att, sc) = m.scatter(&textures, &ray, &rec, &mut rng).expect("never absorbs");
        assert_eq!(att, v(S, S, S));
        assert!(sc.dir == v(0, 0, -S) || sc.dir == v(0, 0, S));
        if sc.dir == v(0, 0, -S) {
            refracted += 1;
        }
    }
    assert!(refracted > 0);
}

#[test]
fn dielectric_shallow_exit_totally_reflects() {
    // From inside the glass (a back-face hit, ratio 1.5) at forty-five
    // degrees, the refracted sine would exceed one, so every draw reflects.
    let textures: Vec<Texture> = vec![];
    let m = Material::Dielectric(Dielectric::new(98304));
    let rec = HitRecord {
        point: Vec3 { x: 0, y: 0, z: 0 },
        t: S,
        normal: Normal::Back(Vec3 { x: 0, y: 0, z: S }),
        material: 0,
        u: 0,
        v: 0,
    };
    let ray = Ray::new(v(S, 0, S), v(-S, 0, -S), 0);
    let mirrored = v(-46341, 0, 46341);
    for seed in 0..20u64 {
        let mut rng = rng_from_seed(seed);
        let (_, sc) = m.scatter(&textures, &ray, &rec, &mut rng).expect("never absorbs");
        assert_eq!(sc.dir, mirrored);
    }
}

#[test]
fn lambertian_never_absorbs() {
    let textures = vec![Texture::Solid(SolidColor::new(S / 4, S / 2, S))];
    let m = Material::Lambertian(Lambertian::new(0));
    let rec = front_hit(v(2 * S, 0, 0), v(0, 0, S), 0);
    let ray = Ray::new(v(2 * S, 0, S), v(0, 0, -S), 5);
    for seed in 0..20u64 {
        let mut rng = rng_from_seed(seed);
        let (att, sc) = m.scatter(&textures, &ray, &rec, &mut rng).expect("diffuse never absorbs");
        assert_eq!(att, v(S / 4, S / 2, S));
        assert_eq!(sc.orig, v(2 * S, 0, 0));
        assert_eq!(sc.time, 5);
        // The direction is the normal plus a unit vector: it can never be
        // longer than about two units.
        assert!(sc.dir.x.abs() <= 3 * S && sc.dir.y.abs() <= 3 * S && sc.dir.z.abs() <= 3 * S);
    }
}

#[test]
fn solid_texture_is_constant() {
    let textures = vec![Texture::Solid(SolidColor::new(S / 4, S / 2, S))];
    let c = texture_value(&textures, 0, 0, 0, &v(9 * S, -3 * S, S));
    assert_eq!(c, v(S / 4, S / 2, S));
}

#[test]
fn checker_alternates_cells() {
    let textures = vec![
        Texture::Solid(SolidColor::new(S, 0, 0)),
        Texture::Solid(SolidColor::new(0, S, 0)),
        Texture::Checker(Checker::new(0, 1)),
    ];
    // The origin is in cell (0, 0, 0): even.
    assert_eq!(texture_value(&textures, 2, 0, 0, &v(0, 0, 0)), v(0, S, 0));
    // One cell over in x (10 x / pi crosses 1): odd.
    assert_eq!(texture_value(&textures, 2, 0, 0, &v(25000, 0, 0)), v(S, 0, 0));
    // An out-of-range texture index falls back to black.
    assert_eq!(texture_value(&textures, 9, 0, 0, &v(0, 0, 0)), v(0, 0, 0));
}
