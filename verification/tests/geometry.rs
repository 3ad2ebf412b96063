//! Boxes, rays and sphere intersections on exact fixed-point values.

use raytrace::fx::SCALE;
use raytrace::vec3::Vec3;
use raytrace::ray::Ray;
use raytrace::aabb::AABB;
use raytrace::sphere::{Sphere, MovingSphere};
use raytrace::hit::Normal;

const S: i64 = SCALE;

fn v(x: i64, y: i64, z: i64) -> Vec3 {
    Vec3 { x, y, z }
}

#[test]
fn box_hit_head_on() {
    let bx = AABB::new(v(-S, -S, -S), v(S, S, S));
    let ray = Ray::new(v(0, 0, -5 * S), v(0, 0, S), 0);
    assert!(bx.hit(&ray, 66, 100 * S));
}

#[test]
fn box_miss_parallel_offset() {
    let bx = AABB::new(v(-S, -S, -S), v(S, S, S));
    let ray = Ray::new(v(5 * S, 5 * S, -5 * S), v(0, 0, S), 0);
    assert!(!bx.hit(&ray, 66, 100 * S));
}

#[test]
fn box_parallel_on_boundary_accepts() {
    let bx = AABB::new(v(-S, -S, -S), v(S, S, S));
    // Sliding along the face plane x == 1: the parallel axis accepts on the
    // boundary.
    let ray = Ray::new(v(S, 0, -5 * S), v(0, 0, S), 0);
    assert!(bx.hit(&ray, 66, 100 * S));
}

#[test]
fn box_behind_ray_misses() {
    let bx = AABB::new(v(-S, -S, -S), v(S, S, S));
    let ray = Ray::new(v(0, 0, -5 * S), v(0, 0, -S), 0);
    assert!(!bx.hit(&ray, 66, 100 * S));
}

#[test]
fn surrounding_box_bounds_both() {
    let a = AABB::new(v(-2 * S, 0, -S), v(0, S, S));
    let b = AABB::new(v(-S, -3 * S, 0), v(4 * S, 0, 2 * S));
    let u = AABB::surrounding_box(a, b);
    assert_eq!(u.minimum, v(-2 * S, -3 * S, -S));
    assert_eq!(u.maximum, v(4 * S, S, 2 * S));
    // Componentwise: the union's minimum is below both minima, its maximum
    // above both maxima.
    assert!(u.minimum.x <= a.minimum.x && u.minimum.x <= b.minimum.x);
    assert!(u.minimum.y <= a.minimum.y && u.minimum.y <= b.minimum.y);
    assert!(u.minimum.z <= a.minimum.z && u.minimum.z <= b.minimum.z);
    assert!(u.maximum.x >= a.maximum.x && u.maximum.x >= b.maximum.x);
    assert!(u.maximum.y >= a.maximum.y && u.maximum.y >= b.maximum.y);
    assert!(u.maximum.z >= a.maximum.z && u.maximum.z >= b.maximum.z);
}

#[test]
fn sphere_head_on_hit_is_exact() {
    let s = Sphere::new(v(0, 0, -S), S / 2, 7);
    let ray = Ray::new(v(0, 0, 0), v(0, 0, -S), 0);
    let hit = s.hit(&ray, 0, 1 << 40).expect("must hit");
    assert_eq!(hit.t, S / 2);
    assert_eq!(hit.point, v(0, 0, -S / 2));
    assert_eq!(hit.material, 7);
    match hit.normal {
        Normal::Front(n) => assert_eq!(n, v(0, 0, S)),
        Normal::Back(_) => panic!("expected a front-face hit"),
    }
}

#[test]
fn sphere_from_inside_is_back_face() {
    let s = Sphere::new(v(0, 0, 0), S, 3);
    let ray = Ray::new(v(0, 0, 0), v(0, 0, -S), 0);
    let hit = s.hit(&ray, 0, 1 << 40).expect("must hit");
    assert_eq!(hit.t, S);
    match hit.normal {
        Normal::Back(n) => assert_eq!(n, v(0, 0, S)),
        Normal::Front(_) => panic!("expected a back-face hit"),
    }
}

#[test]
fn sphere_miss_off_axis() {
    let s = Sphere::new(v(0, 0, -2 * S), S / 2, 0);
    let ray = Ray::new(v(0, 0, 0), v(S, 0, 0), 0);
    assert!(s.hit(&ray, 0, 1 << 40).is_none());
}

#[test]
fn sphere_range_excludes_hit() {
    let s = Sphere::new(v(0, 0, -S), S / 2, 0);
    let ray = Ray::new(v(0, 0, 0), v(0, 0, -S), 0);
    // Both roots (0.5 and 1.5) lie past the allowed range.
    assert!(s.hit(&ray, 0, S / 4).is_none());
}

#[test]
fn sphere_bounding_box_is_center_plus_minus_radius() {
    let s = Sphere::new(v(3 * S, -S, 0), S / 2, 0);
    let bx = s.bounding_box();
    assert_eq!(bx.minimum, v(3 * S - S / 2, -S - S / 2, -S / 2));
    assert_eq!(bx.maximum, v(3 * S + S / 2, -S + S / 2, S / 2));
}

#[test]
fn moving_sphere_center_interpolates() {
    let m = MovingSphere::new(v(0, 0, 0), v(S, 2 * S, 0), 0, S, S / 2, 0);
    assert_eq!(m.center(0), v(0, 0, 0));
    assert_eq!(m.center(S), v(S, 2 * S, 0));
    assert_eq!(m.center(S / 2), v(S / 2, S, 0));
}

#[test]
fn moving_sphere_box_spans_both_ends() {
    let m = MovingSphere::new(v(0, 0, 0), v(S, 0, 0), 0, S, S / 2, 0);
    let bx = m.bounding_box();
    assert_eq!(bx.minimum, v(-S / 2, -S / 2, -S / 2));
    assert_eq!(bx.maximum, v(S + S / 2, S / 2, S / 2));
}

#[test]
fn moving_sphere_hit_uses_ray_time() {
    // The sphere sits at x = 0 at time 0 and at x = 4 at time 1; a ray down
    // the z axis through x = 0 hits it only at the early time.
    let m = MovingSphere::new(v(0, 0, -4 * S), v(4 * S, 0, -4 * S), 0, S, S, 0);
    let early = Ray::new(v(0, 0, 0), v(0, 0, -S), 0);
    let late = Ray::new(v(0, 0, 0), v(0, 0, -S), S);
    assert!(m.hit(&early, 0, 1 << 40).is_some());
    assert!(m.hit(&late, 0, 1 << 40).is_none());
}

#[test]
fn ray_at_walks_the_direction() {
    let ray = Ray::new(v(S, 0, 0), v(0, 2 * S, 0), 0);
    let p = ray.at(S / 2);
    assert_eq!(p, v(S, S, 0));
    assert_eq!(ray.origin(), v(S, 0, 0));
    assert_eq!(ray.direction(), v(0, 2 * S, 0));
    assert_eq!(ray.time(), 0);
}

#[test]
fn normalize_gives_exact_axis_units() {
    let n = v(0, 0, -5 * S).normalize();
    assert_eq!(n, v(0, 0, -S));
    assert_eq!(v(0, 0, 0).normalize(), v(0, 0, 0));
}

#[test]
fn near_zero_threshold() {
    assert!(v(1, -2, 3).near_zero());
    assert!(!v(16, 0, 0).near_zero());
}
