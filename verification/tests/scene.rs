//! The tree against the flat list, the integrator, and the renderer.

use raytrace::fx::SCALE;
use raytrace::vec3::Vec3;
use raytrace::ray::Ray;
use raytrace::hit::{HittableList, Primitive};
use raytrace::sphere::{Sphere, MovingSphere};
use raytrace::texture::{Texture, SolidColor};
use raytrace::material::{Material, Lambertian};
use raytrace::trace::{Scene, ray_color, background};
use raytrace::render::{render, pixel_coords, Canvas};
use raytrace::rng::rng_from_seed;

const S: i64 = SCALE;

fn v(x: i64, y: i64, z: i64) -> Vec3 {
    Vec3 { x, y, z }
}

fn test_prims() -> Vec<Primitive> {
    vec![
        Primitive::Sphere(Sphere::new(v(0, 0, -10 * S), 2 * S, 0)),
        Primitive::Sphere(Sphere::new(v(0, 0, -5 * S), S, 1)),
        Primitive::Sphere(Sphere::new(v(3 * S, 0, -8 * S), S, 2)),
        Primitive::Moving(MovingSphere::new(v(0, 3 * S, -7 * S), v(0, 4 * S, -7 * S), 0, S, S, 3)),
    ]
}

#[test]
fn list_reports_nearest() {
    let mut list = HittableList::new();
    for p in test_prims() {
        list.add(p);
    }
    let ray = Ray::new(v(0, 0, 0), v(0, 0, -S), S / 2);
    let hit = list.hit(&ray, 66, 1 << 40).expect("must hit");
    assert_eq!(hit.t, 4 * S);
    assert_eq!(hit.material, 1);
}

#[test]
fn bvh_matches_list_on_any_permutation() {
    let prims = test_prims();
    let mut list = HittableList::new();
    for p in prims.iter() {
        list.add(*p);
    }
    // Several permutations of the same primitives, each built into a tree
    // with its own random split axes.
    let perms: Vec<Vec<usize>> = vec![
        vec![0, 1, 2, 3],
        vec![3, 2, 1, 0],
        vec![1, 3, 0, 2],
        vec![2, 0, 3, 1],
    ];
    let rays = vec![
        Ray::new(v(0, 0, 0), v(0, 0, -S), S / 2),
        Ray::new(v(0, 0, 0), v(0, S / 2, -S), S / 2),
        Ray::new(v(-8 * S, 0, -8 * S), v(S, 0, 0), 0),
        Ray::new(v(0, 0, 0), v(0, S, 0), 0),
        Ray::new(v(0, 10 * S, -7 * S), v(0, -S, 0), S),
    ];
    let mut seed = 11u64;
    for perm in perms.iter() {
        let mut shuffled = HittableList::new();
        for &k in perm.iter() {
            shuffled.add(prims[k]);
        }
        let mut rng = rng_from_seed(seed);
        seed += 1;
        let tree = shuffled.into_bvh(&mut rng);
        for ray in rays.iter() {
            let from_tree = tree.hit(ray, 66, 1 << 40);
            let from_list = list.hit(ray, 66, 1 << 40);
            match (from_tree, from_list) {
                (None, None) => {},
                (Some(a), Some(b)) => {
                    assert_eq!(a.t, b.t);
                    assert_eq!(a.point, b.point);
                },
                _ => panic!("tree and list disagree on whether the ray hits"),
            }
        }
    }
}

#[test]
fn equal_distance_hits_report_the_later_primitive() {
    // Two coincident spheres with different materials: the scan caps the
    // range inclusively at each found hit, so the later one wins the tie.
    let mut list = HittableList::new();
    list.add(Primitive::Sphere(Sphere::new(v(0, 0, -5 * S), S, 4)));
    list.add(Primitive::Sphere(Sphere::new(v(0, 0, -5 * S), S, 8)));
    let ray = Ray::new(v(0, 0, 0), v(0, 0, -S), 0);
    let hit = list.hit(&ray, 66, 1 << 40).expect("must hit");
    assert_eq!(hit.t, 4 * S);
    assert_eq!(hit.material, 8);
}

#[test]
fn bvh_single_primitive() {
    let mut list = HittableList::new();
    list.add(Primitive::Sphere(Sphere::new(v(0, 0, -5 * S), S, 9)));
    let mut rng = rng_from_seed(5);
    let tree = list.into_bvh(&mut rng);
    let ray = Ray::new(v(0, 0, 0), v(0, 0, -S), 0);
    let hit = tree.hit(&ray, 66, 1 << 40).expect("must hit");
    assert_eq!(hit.t, 4 * S);
    assert_eq!(hit.material, 9);
    let miss = Ray::new(v(0, 0, 0), v(0, 0, S), 0);
    assert!(tree.hit(&miss, 66, 1 << 40).is_none());
}

#[test]
fn list_bounding_box_covers_all() {
    let mut list = HittableList::new();
    assert!(list.bounding_box().is_none());
    for p in test_prims() {
        list.add(p);
    }
    let bx = list.bounding_box().expect("nonempty list has a box");
    assert!(bx.minimum.z <= -12 * S);
    assert!(bx.maximum.y >= 5 * S);
}

fn small_scene() -> Scene {
    let textures = vec![Texture::Solid(SolidColor::new(S / 2, S / 2, S / 2))];
    let materials = vec![Material::Lambertian(Lambertian::new(0))];
    let mut list = HittableList::new();
    list.add(Primitive::Sphere(Sphere::new(v(0, 0, -100 * S), S, 0)));
    let mut rng = rng_from_seed(2);
    let world = list.into_bvh(&mut rng);
    Scene::new(textures, materials, world)
}

#[test]
fn zero_depth_is_black() {
    let scene = small_scene();
    let mut rng = rng_from_seed(3);
    let rays = vec![
        Ray::new(v(0, 0, 0), v(0, 0, -S), 0),
        Ray::new(v(S, -S, 2 * S), v(S, S, S), S / 4),
        Ray::new(v(0, 0, 0), v(0, 0, 0), 0),
    ];
    for ray in rays.iter() {
        assert_eq!(ray_color(&scene, ray, 0, &mut rng), v(0, 0, 0));
    }
}

#[test]
fn miss_gives_sky_gradient() {
    let scene = small_scene();
    let mut rng = rng_from_seed(4);
    // Straight up: the unit direction's y is exactly one, so the gradient
    // lands on the zenith color.
    let up = Ray::new(v(0, 0, 0), v(0, 7 * S, 0), 0);
    let c = ray_color(&scene, &up, 8, &mut rng);
    assert_eq!(c, v(S / 2, 45875, S));
    assert_eq!(background(&up), c);
    // Straight down: all white.
    let down = Ray::new(v(0, 0, 0), v(0, -7 * S, 0), 0);
    assert_eq!(ray_color(&scene, &down, 8, &mut rng), v(S, S, S));
}

#[test]
fn render_fills_every_cell_once() {
    let scene = small_scene();
    let cam = raytrace::camera::Camera::new(
        v(13 * S, 2 * S, 3 * S),
        v(0, 0, 0),
        20 * S,
        S / 10,
        10 * S,
        0,
        S,
    );
    let mut rng = rng_from_seed(6);
    let canvas = render(&scene, &cam, 4, 3, 2, 3, &mut rng);
    assert_eq!(canvas.width, 4);
    assert_eq!(canvas.height, 3);
    assert!(canvas.is_complete());
    for j in 0..3usize {
        for i in 0..4usize {
            assert!(canvas.is_filled(i, j));
            let c = canvas.get(i, j);
            assert!(0 <= c.x && c.x <= S);
            assert!(0 <= c.y && c.y <= S);
            assert!(0 <= c.z && c.z <= S);
        }
    }
}

#[test]
fn canvas_write_once_discipline() {
    let mut canvas = Canvas::new(2, 2);
    assert!(!canvas.is_complete());
    assert!(!canvas.is_filled(1, 0));
    canvas.put(1, 0, v(S, 0, 0));
    assert!(canvas.is_filled(1, 0));
    assert_eq!(canvas.get(1, 0), v(S, 0, 0));
    canvas.put(0, 0, v(0, 0, 0));
    canvas.put(0, 1, v(0, 0, 0));
    canvas.put(1, 1, v(0, 0, 0));
    assert!(canvas.is_complete());
}

#[test]
fn pixel_coords_enumerates_each_once() {
    let coords = pixel_coords(3, 2);
    assert_eq!(
        coords,
        vec![(0, 0), (1, 0), (2, 0), (0, 1), (1, 1), (2, 1)],
    );
    for a in 0..coords.len() {
        for b in (a + 1)..coords.len() {
            assert_ne!(coords[a], coords[b]);
        }
    }
}

#[test]
fn camera_ray_time_within_exposure() {
    let cam = raytrace::camera::Camera::new(
        v(13 * S, 2 * S, 3 * S),
        v(0, 0, 0),
        20 * S,
        S / 10,
        10 * S,
        0,
        S,
    );
    let mut rng = rng_from_seed(8);
    for _ in 0..50 {
        let ray = cam.get_ray(S / 2, S / 2, &mut rng);
        assert!(0 <= ray.time && ray.time < S);
    }
}
