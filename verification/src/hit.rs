//! Hit records, the closed set of primitives, and the flat list a scene is
//! assembled in.
//!
//! `is_nearest_hit` is the specification every intersection container meets:
//! a reported record is some primitive's hit in the queried range and no
//! primitive hits nearer; a miss means no primitive hits at all. The flat
//! list establishes it by a linear scan; the tree in `bvh` establishes the
//! same predicate, which is what makes the two interchangeable.

use vstd::prelude::*;
use crate::fx::iabs;
use crate::vec3::{Vec3, Point3, vec_within};
use crate::ray::{Ray, ray_within, T_MAX};
use crate::aabb::{AABB, box_contains, box_union_spec};
use crate::sphere::{
    Sphere, MovingSphere, sphere_hit_spec, moving_hit_spec, sphere_box_spec, moving_box_spec,
    sphere_within, moving_within, shrink_expect, lemma_sphere_hit_shrink,
    lemma_sphere_hit_in_range, lemma_sphere_hit_within, lemma_sphere_hit_point, mcenter,
    CENTER_CAP,
};

verus! {

/// The oriented unit normal of a hit: `Front` when the ray struck the
/// outside of the surface, `Back` when it originated inside. Either way the
/// stored vector opposes the incoming ray.
#[derive(Clone, Copy, PartialEq, Eq, Structural, Debug)]
pub enum Normal {
    Front(Vec3),
    Back(Vec3),
}

/// What a ray/primitive intersection reports: the point reached, the ray
/// parameter, the oriented normal, the index of the material shared through
/// the scene's material table, and the surface parameters.
#[derive(Clone, Copy, PartialEq, Eq, Structural, Debug)]
pub struct HitRecord {
    pub point: Point3,
    pub t: i64,
    pub normal: Normal,
    pub material: usize,
    pub u: i64,
    pub v: i64,
}

pub open spec fn normal_vec(n: Normal) -> Vec3 {
    match n {
        Normal::Front(v) => v,
        Normal::Back(v) => v,
    }
}

impl HitRecord {
    /// The stored normal, whichever way it is tagged.
    pub fn normal(&self) -> (r: Vec3)
        ensures
            r == normal_vec(self.normal),
    {
        match self.normal {
            Normal::Front(v) => v,
            Normal::Back(v) => v,
        }
    }
}

/// The closed set of primitive kinds a scene can hold.
#[derive(Clone, Copy, PartialEq, Eq, Structural, Debug)]
pub enum Primitive {
    Sphere(Sphere),
    Moving(MovingSphere),
}

pub open spec fn prim_within(p: Primitive) -> bool {
    match p {
        Primitive::Sphere(s) => sphere_within(s),
        Primitive::Moving(s) => moving_within(s),
    }
}

/// The hit a primitive reports for a ray over `[a, b]`.
pub open spec fn prim_hit_spec(p: Primitive, ray: Ray, a: int, b: int) -> Option<HitRecord> {
    match p {
        Primitive::Sphere(s) => sphere_hit_spec(
            s.center.x as int,
            s.center.y as int,
            s.center.z as int,
            s.radius as int,
            s.material,
            ray,
            a,
            b,
        ),
        Primitive::Moving(s) => moving_hit_spec(s, ray, a, b),
    }
}

/// The bounding box a primitive reports.
pub open spec fn prim_box_spec(p: Primitive) -> AABB {
    match p {
        Primitive::Sphere(s) => sphere_box_spec(s),
        Primitive::Moving(s) => moving_box_spec(s),
    }
}

impl Primitive {
    pub fn hit(&self, ray: &Ray, t_min: i64, t_max: i64) -> (res: Option<HitRecord>)
        requires
            prim_within(*self),
            ray_within(*ray),
            iabs(t_min as int) <= T_MAX as int,
            iabs(t_max as int) <= T_MAX as int,
        ensures
            res == prim_hit_spec(*self, *ray, t_min as int, t_max as int),
    {
        match self {
            Primitive::Sphere(s) => s.hit(ray, t_min, t_max),
            Primitive::Moving(s) => s.hit(ray, t_min, t_max),
        }
    }

    pub fn bounding_box(&self) -> (bx: AABB)
        requires
            prim_within(*self),
        ensures
            bx == prim_box_spec(*self),
    {
        match self {
            Primitive::Sphere(s) => s.bounding_box(),
            Primitive::Moving(s) => s.bounding_box(),
        }
    }
}

/// Shrinking the upper end of the query range keeps exactly the hits at or
/// before the new end (lifted to either primitive kind).
pub proof fn lemma_prim_hit_shrink(p: Primitive, ray: Ray, a: int, b: int, b2: int)
    requires
        b2 <= b,
        iabs(a) <= T_MAX as int,
        iabs(b) <= T_MAX as int,
    ensures
        prim_hit_spec(p, ray, a, b2) == shrink_expect(prim_hit_spec(p, ray, a, b), b2),
{
    match p {
        Primitive::Sphere(s) => {
            lemma_sphere_hit_shrink(
                s.center.x as int,
                s.center.y as int,
                s.center.z as int,
                s.radius as int,
                s.material,
                ray,
                a,
                b,
                b2,
            );
        },
        Primitive::Moving(s) => {
            let mx = mcenter(
                s.center0.x as int,
                s.center1.x as int,
                s.time0 as int,
                s.time1 as int,
                ray.time as int,
            );
            let my = mcenter(
                s.center0.y as int,
                s.center1.y as int,
                s.time0 as int,
                s.time1 as int,
                ray.time as int,
            );
            let mz = mcenter(
                s.center0.z as int,
                s.center1.z as int,
                s.time0 as int,
                s.time1 as int,
                ray.time as int,
            );
            if iabs(mx) > CENTER_CAP as int || iabs(my) > CENTER_CAP as int || iabs(mz)
                > CENTER_CAP as int {
            } else {
                lemma_sphere_hit_shrink(mx, my, mz, s.radius as int, s.material, ray, a, b, b2);
            }
        },
    }
}

/// A reported hit lies inside the query range.
pub proof fn lemma_prim_hit_in_range(p: Primitive, ray: Ray, a: int, b: int)
    requires
        iabs(a) <= T_MAX as int,
        iabs(b) <= T_MAX as int,
    ensures
        match prim_hit_spec(p, ray, a, b) {
            Some(h) => a <= h.t && h.t <= b,
            None => true,
        },
{
    match p {
        Primitive::Sphere(s) => {
            lemma_sphere_hit_in_range(
                s.center.x as int,
                s.center.y as int,
                s.center.z as int,
                s.radius as int,
                s.material,
                ray,
                a,
                b,
            );
        },
        Primitive::Moving(s) => {
            let mx = mcenter(
                s.center0.x as int,
                s.center1.x as int,
                s.time0 as int,
                s.time1 as int,
                ray.time as int,
            );
            let my = mcenter(
                s.center0.y as int,
                s.center1.y as int,
                s.time0 as int,
                s.time1 as int,
                ray.time as int,
            );
            let mz = mcenter(
                s.center0.z as int,
                s.center1.z as int,
                s.time0 as int,
                s.time1 as int,
                ray.time as int,
            );
            if iabs(mx) > CENTER_CAP as int || iabs(my) > CENTER_CAP as int || iabs(mz)
                > CENTER_CAP as int {
            } else {
                lemma_sphere_hit_in_range(mx, my, mz, s.radius as int, s.material, ray, a, b);
            }
        },
    }
}

/// A reported hit's point is where the ray stands at the reported parameter.
pub proof fn lemma_prim_hit_point(p: Primitive, ray: Ray, a: int, b: int)
    requires
        iabs(a) <= T_MAX as int,
        iabs(b) <= T_MAX as int,
    ensures
        match prim_hit_spec(p, ray, a, b) {
            Some(h) => h.point == crate::ray::ray_at_spec(ray, h.t as int),
            None => true,
        },
{
    match p {
        Primitive::Sphere(s) => {
            lemma_sphere_hit_point(
                s.center.x as int,
                s.center.y as int,
                s.center.z as int,
                s.radius as int,
                s.material,
                ray,
                a,
                b,
            );
        },
        Primitive::Moving(s) => {
            let mx = mcenter(
                s.center0.x as int,
                s.center1.x as int,
                s.time0 as int,
                s.time1 as int,
                ray.time as int,
            );
            let my = mcenter(
                s.center0.y as int,
                s.center1.y as int,
                s.time0 as int,
                s.time1 as int,
                ray.time as int,
            );
            let mz = mcenter(
                s.center0.z as int,
                s.center1.z as int,
                s.time0 as int,
                s.time1 as int,
                ray.time as int,
            );
            if iabs(mx) > CENTER_CAP as int || iabs(my) > CENTER_CAP as int || iabs(mz)
                > CENTER_CAP as int {
            } else {
                lemma_sphere_hit_point(mx, my, mz, s.radius as int, s.material, ray, a, b);
            }
        },
    }
}

/// A reported hit's normal and point are in the working domain.
pub proof fn lemma_prim_hit_within(p: Primitive, ray: Ray, a: int, b: int)
    requires
        ray_within(ray),
        iabs(a) <= T_MAX as int,
        iabs(b) <= T_MAX as int,
    ensures
        match prim_hit_spec(p, ray, a, b) {
            Some(h) => vec_within(normal_vec(h.normal), crate::vec3::UNIT_MAX as int)
                && vec_within(h.point, crate::ray::POINT_MAX as int),
            None => true,
        },
{
    match p {
        Primitive::Sphere(s) => {
            lemma_sphere_hit_within(
                s.center.x as int,
                s.center.y as int,
                s.center.z as int,
                s.radius as int,
                s.material,
                ray,
                a,
                b,
            );
        },
        Primitive::Moving(s) => {
            let mx = mcenter(
                s.center0.x as int,
                s.center1.x as int,
                s.time0 as int,
                s.time1 as int,
                ray.time as int,
            );
            let my = mcenter(
                s.center0.y as int,
                s.center1.y as int,
                s.time0 as int,
                s.time1 as int,
                ray.time as int,
            );
            let mz = mcenter(
                s.center0.z as int,
                s.center1.z as int,
                s.time0 as int,
                s.time1 as int,
                ray.time as int,
            );
            if iabs(mx) > CENTER_CAP as int || iabs(my) > CENTER_CAP as int || iabs(mz)
                > CENTER_CAP as int {
            } else {
                lemma_sphere_hit_within(mx, my, mz, s.radius as int, s.material, ray, a, b);
            }
        },
    }
}

/// Every primitive of the sequence is in the tracer's working domain.
pub open spec fn prims_within(s: Seq<Primitive>) -> bool {
    forall|i: int| 0 <= i < s.len() ==> prim_within(#[trigger] s[i])
}

/// `h` is at least as near as the hit `o`, if there is one.
pub open spec fn hit_le(h: HitRecord, o: Option<HitRecord>) -> bool {
    match o {
        Some(u) => h.t <= u.t,
        None => true,
    }
}

/// The nearest-hit contract over a set of primitives: a miss means every
/// primitive misses on `[a, b]`; a hit is some primitive's hit there, lies in
/// the range, and no primitive hits nearer.
pub open spec fn is_nearest_hit(
    prims: Seq<Primitive>,
    ray: Ray,
    a: int,
    b: int,
    res: Option<HitRecord>,
) -> bool {
    match res {
        None => forall|i: int|
            0 <= i < prims.len() ==> #[trigger] prim_hit_spec(prims[i], ray, a, b) is None,
        Some(h) => {
            &&& a <= h.t <= b
            &&& exists|i: int|
                0 <= i < prims.len() && #[trigger] prim_hit_spec(prims[i], ray, a, b) == Some(h)
            &&& forall|i: int|
                0 <= i < prims.len() ==> hit_le(h, #[trigger] prim_hit_spec(prims[i], ray, a, b))
        },
    }
}

/// Two results that both satisfy the nearest-hit contract hit at the same
/// distance (the records may name different primitives when two are hit at
/// exactly the same parameter).
pub open spec fn same_hit_t(r1: Option<HitRecord>, r2: Option<HitRecord>) -> bool {
    match (r1, r2) {
        (None, None) => true,
        (Some(h1), Some(h2)) => h1.t == h2.t,
        _ => false,
    }
}

pub proof fn lemma_nearest_hit_unique(
    prims: Seq<Primitive>,
    ray: Ray,
    a: int,
    b: int,
    r1: Option<HitRecord>,
    r2: Option<HitRecord>,
)
    requires
        is_nearest_hit(prims, ray, a, b, r1),
        is_nearest_hit(prims, ray, a, b, r2),
    ensures
        same_hit_t(r1, r2),
{
    match (r1, r2) {
        (Some(h1), Some(h2)) => {
            let i1 = choose|i: int|
                0 <= i < prims.len() && #[trigger] prim_hit_spec(prims[i], ray, a, b) == Some(h1);
            let i2 = choose|i: int|
                0 <= i < prims.len() && #[trigger] prim_hit_spec(prims[i], ray, a, b) == Some(h2);
            assert(hit_le(h1, prim_hit_spec(prims[i2], ray, a, b)));
            assert(hit_le(h2, prim_hit_spec(prims[i1], ray, a, b)));
        },
        (Some(h1), None) => {
            let i1 = choose|i: int|
                0 <= i < prims.len() && #[trigger] prim_hit_spec(prims[i], ray, a, b) == Some(h1);
            assert(prim_hit_spec(prims[i1], ray, a, b) is None);
        },
        (None, Some(h2)) => {
            let i2 = choose|i: int|
                0 <= i < prims.len() && #[trigger] prim_hit_spec(prims[i], ray, a, b) == Some(h2);
            assert(prim_hit_spec(prims[i2], ray, a, b) is None);
        },
        (None, None) => {},
    }
}

/// The nearest-hit contract only reads which hits occur among the
/// primitives, so any reordering (any sequence with the same multiset of
/// primitives) satisfies it with the same result.
pub proof fn lemma_nearest_hit_permuted(
    s1: Seq<Primitive>,
    s2: Seq<Primitive>,
    ray: Ray,
    a: int,
    b: int,
    res: Option<HitRecord>,
)
    requires
        s1.to_multiset() == s2.to_multiset(),
        is_nearest_hit(s1, ray, a, b, res),
    ensures
        is_nearest_hit(s2, ray, a, b, res),
{
    s1.to_multiset_ensures();
    s2.to_multiset_ensures();
    assert forall|p: Primitive| s1.contains(p) <==> s2.contains(p) by {
        assert(s1.contains(p) <==> s1.to_multiset().count(p) > 0);
        assert(s2.contains(p) <==> s2.to_multiset().count(p) > 0);
    }
    match res {
        None => {
            assert forall|i: int| 0 <= i < s2.len() implies #[trigger] prim_hit_spec(
                s2[i],
                ray,
                a,
                b,
            ) is None by {
                assert(s2.contains(s2[i]));
                let j = choose|j: int| 0 <= j < s1.len() && s1[j] == s2[i];
                assert(prim_hit_spec(s1[j], ray, a, b) is None);
            }
        },
        Some(h) => {
            let i1 = choose|i: int|
                0 <= i < s1.len() && #[trigger] prim_hit_spec(s1[i], ray, a, b) == Some(h);
            assert(s1.contains(s1[i1]));
            let i2 = choose|j: int| 0 <= j < s2.len() && s2[j] == s1[i1];
            assert(prim_hit_spec(s2[i2], ray, a, b) == Some(h));
            assert forall|i: int| 0 <= i < s2.len() implies hit_le(
                h,
                #[trigger] prim_hit_spec(s2[i], ray, a, b),
            ) by {
                assert(s2.contains(s2[i]));
                let j = choose|j: int| 0 <= j < s1.len() && s1[j] == s2[i];
                assert(hit_le(h, prim_hit_spec(s1[j], ray, a, b)));
            }
        },
    }
}

/// What the linear scan computes, element by element: each primitive is
/// queried over the range capped at the best distance so far, and a found
/// hit replaces the best — so of two primitives hit at exactly the same
/// parameter, the later one in list order is the one reported.
pub open spec fn list_hit_spec(s: Seq<Primitive>, ray: Ray, a: int, b: int) -> Option<HitRecord>
    decreases s.len(),
{
    if s.len() == 0 {
        None
    } else {
        let prev = list_hit_spec(s.drop_last(), ray, a, b);
        let cap = match prev {
            Some(h) => h.t as int,
            None => b,
        };
        match prim_hit_spec(s.last(), ray, a, cap) {
            Some(h2) => Some(h2),
            None => prev,
        }
    }
}

/// The fold of box unions over the list, in order: the smallest box
/// containing every primitive's box, or nothing for an empty list.
pub open spec fn list_box_spec(s: Seq<Primitive>) -> Option<AABB>
    decreases s.len(),
{
    if s.len() == 0 {
        None
    } else if s.len() == 1 {
        Some(prim_box_spec(s[0]))
    } else {
        match list_box_spec(s.drop_last()) {
            Some(bx) => Some(box_union_spec(bx, prim_box_spec(s.last()))),
            None => None,
        }
    }
}

/// The unordered list a scene is assembled in before the tree is built.
#[derive(Default)]
pub struct HittableList {
    pub objects: Vec<Primitive>,
}

impl HittableList {
    pub fn new() -> (r: HittableList)
        ensures
            r.objects@ == Seq::<Primitive>::empty(),
    {
        HittableList { objects: Vec::new() }
    }

    pub fn add(&mut self, obj: Primitive)
        ensures
            final(self).objects@ == old(self).objects@.push(obj),
    {
        self.objects.push(obj);
    }

    /// Nearest hit by a linear scan: each primitive is queried over the
    /// range capped at the best distance so far, exactly as the tree does.
    /// The result is exactly `list_hit_spec` (which also settles ties:
    /// latest in list order wins), and it is the nearest hit of the set.
    #[verifier::rlimit(80)]
    pub fn hit(&self, ray: &Ray, t_min: i64, t_max: i64) -> (res: Option<HitRecord>)
        requires
            prims_within(self.objects@),
            ray_within(*ray),
            iabs(t_min as int) <= T_MAX as int,
            iabs(t_max as int) <= T_MAX as int,
        ensures
            res == list_hit_spec(self.objects@, *ray, t_min as int, t_max as int),
            is_nearest_hit(self.objects@, *ray, t_min as int, t_max as int, res),
    {
        let mut res: Option<HitRecord> = None;
        let mut closest = t_max;
        let n = self.objects.len();
        let mut k: usize = 0;
        while k < n
            invariant
                n == self.objects@.len(),
                0 <= k <= n,
                prims_within(self.objects@),
                ray_within(*ray),
                iabs(t_min as int) <= T_MAX as int,
                iabs(t_max as int) <= T_MAX as int,
                res == list_hit_spec(
                    self.objects@.take(k as int),
                    *ray,
                    t_min as int,
                    t_max as int,
                ),
                match res {
                    None => closest == t_max && forall|j: int|
                        0 <= j < k ==> #[trigger] prim_hit_spec(
                            self.objects@[j],
                            *ray,
                            t_min as int,
                            t_max as int,
                        ) is None,
                    Some(h) => {
                        &&& t_min <= h.t <= t_max
                        &&& closest == h.t
                        &&& exists|j: int|
                            0 <= j < k && #[trigger] prim_hit_spec(
                                self.objects@[j],
                                *ray,
                                t_min as int,
                                t_max as int,
                            ) == Some(h)
                        &&& forall|j: int|
                            0 <= j < k ==> hit_le(
                                h,
                                #[trigger] prim_hit_spec(
                                    self.objects@[j],
                                    *ray,
                                    t_min as int,
                                    t_max as int,
                                ),
                            )
                    },
                },
            decreases n - k,
        {
            let obj = &self.objects[k];
            let found = obj.hit(ray, t_min, closest);
            proof {
                lemma_prim_hit_shrink(
                    self.objects@[k as int],
                    *ray,
                    t_min as int,
                    t_max as int,
                    closest as int,
                );
                assert(self.objects@.take(k as int + 1).drop_last() =~= self.objects@.take(
                    k as int,
                ));
                assert(self.objects@.take(k as int + 1).last() == self.objects@[k as int]);
            }
            match found {
                Some(h) => {
                    closest = h.t;
                    res = Some(h);
                },
                None => {},
            }
            k = k + 1;
        }
        proof {
            assert(self.objects@.take(self.objects@.len() as int) =~= self.objects@);
        }
        res
    }

    /// The union of all the primitives' boxes, or nothing for an empty
    /// list: exactly the fold `list_box_spec`, the smallest box containing
    /// every primitive's box.
    pub fn bounding_box(&self) -> (res: Option<AABB>)
        requires
            prims_within(self.objects@),
        ensures
            res == list_box_spec(self.objects@),
            match res {
                None => self.objects@.len() == 0,
                Some(bx) => self.objects@.len() > 0 && forall|i: int|
                    0 <= i < self.objects@.len() ==> box_contains(
                        bx,
                        prim_box_spec(#[trigger] self.objects@[i]),
                    ),
            },
    {
        let n = self.objects.len();
        if n == 0 {
            return None;
        }
        let mut bx = self.objects[0].bounding_box();
        proof {
            assert(self.objects@.take(1)[0] == self.objects@[0]);
        }
        let mut k: usize = 1;
        while k < n
            invariant
                n == self.objects@.len(),
                1 <= k <= n,
                prims_within(self.objects@),
                Some(bx) == list_box_spec(self.objects@.take(k as int)),
                forall|i: int|
                    0 <= i < k ==> box_contains(bx, prim_box_spec(#[trigger] self.objects@[i])),
            decreases n - k,
        {
            let b2 = self.objects[k].bounding_box();
            let merged = AABB::surrounding_box(bx, b2);
            proof {
                lemma_box_contains_trans(merged, bx, self.objects@, k as int);
                assert(self.objects@.take(k as int + 1).drop_last() =~= self.objects@.take(
                    k as int,
                ));
                assert(self.objects@.take(k as int + 1).last() == self.objects@[k as int]);
            }
            bx = merged;
            k = k + 1;
        }
        proof {
            assert(self.objects@.take(n as int) =~= self.objects@);
        }
        Some(bx)
    }
}

/// Box containment carries through a union step: what the old box contained,
/// the enlarged box still contains.
proof fn lemma_box_contains_trans(merged: AABB, older: AABB, s: Seq<Primitive>, k: int)
    requires
        box_contains(merged, older),
        forall|i: int| 0 <= i < k ==> box_contains(older, prim_box_spec(#[trigger] s[i])),
    ensures
        forall|i: int| 0 <= i < k ==> box_contains(merged, prim_box_spec(#[trigger] s[i])),
{
}

} // verus!
