//! The fixed-point primitives, the random draws, and the image encoding.

use raytrace::fx::{SCALE, fmul, fdiv, fsqrt, fclamp, tdiv128, floor_div128, isqrt128};
use raytrace::vec3::{Vec3, dot, cross};
use raytrace::render::color_to_rgb;
use raytrace::rng::{rng_from_seed, rand_unit, rand_range, rand_axis};

const S: i64 = SCALE;

#[test]
fn fixed_point_products_truncate_toward_zero() {
    assert_eq!(fmul(S, S), S);
    assert_eq!(fmul(S / 2, S / 2), S / 4);
    assert_eq!(fmul(-S / 2, S / 2), -S / 4);
    assert_eq!(fmul(3, 3), 0);
    assert_eq!(fmul(-1, 1), 0);
}

#[test]
fn fixed_point_quotients() {
    assert_eq!(fdiv(S, 2 * S), S / 2);
    assert_eq!(fdiv(-S, 2 * S), -S / 2);
    assert_eq!(fdiv(S, 3 * S), 21845);
}

#[test]
fn square_roots_are_floors() {
    assert_eq!(fsqrt(0), 0);
    assert_eq!(fsqrt(S), S);
    assert_eq!(fsqrt(4 * S), 2 * S);
    assert_eq!(fsqrt(2 * S), 92681);
    assert_eq!(isqrt128(10), 3);
    assert_eq!(isqrt128(16), 4);
}

#[test]
fn division_kinds_differ_on_negatives() {
    assert_eq!(tdiv128(-7, 2), -3);
    assert_eq!(floor_div128(-7, 2), -4);
    assert_eq!(tdiv128(7, 2), 3);
    assert_eq!(floor_div128(7, 2), 3);
    assert_eq!(floor_div128(-8, 2), -4);
}

#[test]
fn clamp_bounds() {
    assert_eq!(fclamp(5, 0, S), 5);
    assert_eq!(fclamp(-5, 0, S), 0);
    assert_eq!(fclamp(2 * S, 0, S), S);
}

#[test]
fn vector_arithmetic() {
    let a = Vec3::new(S, 2 * S, -S);
    let b = Vec3::new(S / 2, -S, 4 * S);
    assert_eq!(a.add(b), Vec3::new(3 * S / 2, S, 3 * S));
    assert_eq!(a.sub(b), Vec3::new(S / 2, 3 * S, -5 * S));
    assert_eq!(a.neg(), Vec3::new(-S, -2 * S, S));
    assert_eq!(a.scale(S / 2), Vec3::new(S / 2, S, -S / 2));
    assert_eq!(a.comp_mul(b), Vec3::new(S / 2, -2 * S, -4 * S));
    assert_eq!(a.div_scale(2 * S), Vec3::new(S / 2, S, -S / 2));
    assert_eq!(a.length_squared(), 6 * S);
    assert_eq!(Vec3::new(3 * S, 0, 4 * S).length(), 5 * S);
    assert_eq!(Vec3::zero(), Vec3::new(0, 0, 0));
    assert_eq!((a.x(), a.y(), a.z()), (S, 2 * S, -S));
}

#[test]
fn dot_and_cross_products() {
    let a = Vec3 { x: S, y: 0, z: 0 };
    let b = Vec3 { x: 0, y: S, z: 0 };
    assert_eq!(dot(&a, &b), 0);
    assert_eq!(dot(&a, &a), S);
    assert_eq!(cross(&a, &b), Vec3 { x: 0, y: 0, z: S });
    assert_eq!(cross(&b, &a), Vec3 { x: 0, y: 0, z: -S });
}

#[test]
fn uniform_draws_stay_inside_their_ranges() {
    let mut rng = rng_from_seed(42);
    let mut seen_nonzero = false;
    for _ in 0..200 {
        let r = rand_unit(&mut rng);
        assert!(0 <= r && r < S);
        if r != 0 {
            seen_nonzero = true;
        }
    }
    // A draw that handed its bound back unchanged, or ignored it, would have
    // failed the range assertions; a draw stuck at zero fails this one.
    assert!(seen_nonzero);
    // A one-wide range has a single possible value.
    for _ in 0..50 {
        assert_eq!(rand_range(&mut rng, 5, 6), 5);
    }
    for _ in 0..50 {
        let r = rand_range(&mut rng, -S, S);
        assert!(-S <= r && r < S);
        assert!(rand_axis(&mut rng) < 3);
    }
}

#[test]
fn seeded_streams_are_reproducible() {
    let mut a = rng_from_seed(7);
    let mut b = rng_from_seed(7);
    for _ in 0..20 {
        assert_eq!(rand_range(&mut a, 0, 1000), rand_range(&mut b, 0, 1000));
    }
}

#[test]
fn gamma_encoding_endpoints() {
    assert_eq!(color_to_rgb(Vec3 { x: 0, y: 0, z: 0 }), (0, 0, 0));
    assert_eq!(color_to_rgb(Vec3 { x: S, y: S, z: S }), (255, 255, 255));
    // A quarter of full brightness encodes to half of the channel range.
    assert_eq!(color_to_rgb(Vec3 { x: S / 4, y: 0, z: S }).0, 127);
}
