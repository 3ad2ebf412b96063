//! The bounding volume hierarchy.
//!
//! A query first tests the node's box and prunes the whole subtree on a
//! miss; otherwise it asks the left child over the full range, then the
//! right child over the range capped at the left hit's distance, and the
//! right result, if any, supersedes. `BVH::hit` returns exactly
//! `bvh_hit_spec`, the recursive mirror of that walk; on a nondegenerate
//! query range it additionally establishes the same `is_nearest_hit`
//! contract as the linear scan, under one geometric hypothesis (`covered`):
//! a primitive that reports a hit over a nondegenerate range also passes the
//! slab test of its own bounding box over that range. The rounding of a root
//! to fixed point can push a grazing hit just outside the box's exact slab
//! interval, so the hypothesis is stated rather than proved.

use vstd::prelude::*;
use vstd::seq_lib::lemma_multiset_commutative;
use vstd::multiset::Multiset;
use crate::fx::iabs;
use crate::ray::{Ray, ray_within, T_MAX};
use crate::aabb::{
    AABB, aabb_hit_spec, box_contains, box_within, box_union_spec, lemma_aabb_hit_monotone, vcomp,
};
use crate::hit::{
    HitRecord, Primitive, HittableList, prim_hit_spec, prim_box_spec, prim_within, prims_within,
    is_nearest_hit, hit_le, same_hit_t, lemma_prim_hit_shrink, lemma_prim_hit_in_range,
    lemma_prim_hit_point, lemma_nearest_hit_permuted, lemma_nearest_hit_unique,
};
use crate::sphere::shrink_expect;
use crate::rng::rand_axis;

verus! {

/// Componentwise bound every primitive's bounding box obeys, and with it
/// every node's box (a union of such boxes).
pub const PRIM_BOX_MAX: i64 = 0x1000_0000;

pub enum BVH {
    Leaf { prim: Primitive },
    Node { left: Box<BVH>, right: Box<BVH>, bounding_box: AABB },
}

/// The primitives under a node, left subtree first.
pub open spec fn leaves(n: BVH) -> Seq<Primitive>
    decreases n,
{
    match n {
        BVH::Leaf { prim } => seq![prim],
        BVH::Node { left, right, bounding_box } => leaves(*left) + leaves(*right),
    }
}

/// The box a node answers pruning queries with.
pub open spec fn node_box(n: BVH) -> AABB {
    match n {
        BVH::Leaf { prim } => prim_box_spec(prim),
        BVH::Node { left, right, bounding_box } => bounding_box,
    }
}

/// Well-formedness: every primitive is in the working domain, and every
/// interior box is bounded and is exactly the union of its two children's
/// boxes.
pub open spec fn bvh_wf(n: BVH) -> bool
    decreases n,
{
    match n {
        BVH::Leaf { prim } => prim_within(prim),
        BVH::Node { left, right, bounding_box } => {
            &&& bounding_box == box_union_spec(node_box(*left), node_box(*right))
            &&& box_within(bounding_box, PRIM_BOX_MAX as int)
            &&& bvh_wf(*left)
            &&& bvh_wf(*right)
        },
    }
}

/// What a query computes, node for node: prune on a box miss, query the left
/// child over the full range, the right child over the range capped at the
/// left hit's distance, and let the right result supersede.
pub open spec fn bvh_hit_spec(n: BVH, ray: Ray, a: int, b: int) -> Option<HitRecord>
    decreases n,
{
    match n {
        BVH::Leaf { prim } => prim_hit_spec(prim, ray, a, b),
        BVH::Node { left, right, bounding_box } => {
            if !aabb_hit_spec(bounding_box, ray, a, b) {
                None
            } else {
                match bvh_hit_spec(*left, ray, a, b) {
                    Some(h) => match bvh_hit_spec(*right, ray, a, h.t as int) {
                        Some(h2) => Some(h2),
                        None => Some(h),
                    },
                    None => bvh_hit_spec(*right, ray, a, b),
                }
            }
        },
    }
}

/// The pruning hypothesis for one primitive: whenever it reports a hit over
/// a nondegenerate range, its own bounding box passes the slab test over
/// that range. Degenerate ranges (`a >= b`) are left out: the slab test asks
/// for an interior point and rejects them outright, while the quadratic can
/// still place a root exactly at `a == b`.
pub open spec fn covered(p: Primitive, ray: Ray) -> bool {
    forall|a: int, b: int|
        iabs(a) <= T_MAX as int && iabs(b) <= T_MAX as int && a < b && (#[trigger] prim_hit_spec(
            p,
            ray,
            a,
            b,
        )) is Some ==> aabb_hit_spec(prim_box_spec(p), ray, a, b)
}

pub open spec fn all_covered(s: Seq<Primitive>, ray: Ray) -> bool {
    forall|i: int| 0 <= i < s.len() ==> covered(#[trigger] s[i], ray)
}

/// A primitive's box stays within the box bound.
pub proof fn lemma_prim_box_within(p: Primitive)
    requires
        prim_within(p),
    ensures
        box_within(prim_box_spec(p), PRIM_BOX_MAX as int),
{
}

/// A well-formed node's own box is bounded.
pub proof fn lemma_node_box_within(n: BVH)
    requires
        bvh_wf(n),
    ensures
        box_within(node_box(n), PRIM_BOX_MAX as int),
{
    match n {
        BVH::Leaf { prim } => {
            lemma_prim_box_within(prim);
        },
        BVH::Node { left, right, bounding_box } => {},
    }
}

/// If a node's box fails the slab test, every primitive under it misses:
/// each leaf's box is contained in the node's box through the chain of
/// unions, so by monotonicity of the slab test a leaf hit would force the
/// node's box to pass.
pub proof fn lemma_box_miss(n: BVH, ray: Ray, a: int, b: int)
    requires
        bvh_wf(n),
        all_covered(leaves(n), ray),
        !aabb_hit_spec(node_box(n), ray, a, b),
        iabs(a) <= T_MAX as int,
        iabs(b) <= T_MAX as int,
        a < b,
    ensures
        forall|i: int|
            0 <= i < leaves(n).len() ==> (#[trigger] prim_hit_spec(leaves(n)[i], ray, a, b)) is None,
    decreases n,
{
    match n {
        BVH::Leaf { prim } => {
            assert(leaves(n)[0] == prim);
            if prim_hit_spec(prim, ray, a, b) is Some {
                assert(covered(prim, ray));
                assert(aabb_hit_spec(prim_box_spec(prim), ray, a, b));
            }
        },
        BVH::Node { left, right, bounding_box } => {
            let ll = leaves(*left);
            let rl = leaves(*right);
            assert(leaves(n) == ll + rl);
            crate::aabb::lemma_box_union_contains(node_box(*left), node_box(*right));
            if aabb_hit_spec(node_box(*left), ray, a, b) {
                lemma_aabb_hit_monotone(node_box(*left), bounding_box, ray, a, b);
            }
            if aabb_hit_spec(node_box(*right), ray, a, b) {
                lemma_aabb_hit_monotone(node_box(*right), bounding_box, ray, a, b);
            }
            assert forall|i: int| 0 <= i < ll.len() implies covered(#[trigger] ll[i], ray) by {
                assert(ll[i] == leaves(n)[i]);
            }
            assert forall|i: int| 0 <= i < rl.len() implies covered(#[trigger] rl[i], ray) by {
                assert(rl[i] == leaves(n)[ll.len() + i]);
            }
            lemma_box_miss(*left, ray, a, b);
            lemma_box_miss(*right, ray, a, b);
            assert forall|i: int| 0 <= i < leaves(n).len() implies (#[trigger] prim_hit_spec(
                leaves(n)[i],
                ray,
                a,
                b,
            )) is None by {
                if i < ll.len() {
                    assert(leaves(n)[i] == ll[i]);
                } else {
                    assert(leaves(n)[i] == rl[i - ll.len()]);
                }
            }
        },
    }
}

/// How the two children's results combine: the right result supersedes.
pub open spec fn merge_res(lres: Option<HitRecord>, rres: Option<HitRecord>) -> Option<
    HitRecord,
> {
    match rres {
        Some(h2) => Some(h2),
        None => lres,
    }
}

/// The crux of tree correctness: if the left result is nearest among the
/// left primitives over `[a, b]`, and the right result is nearest among the
/// right primitives over the range capped at the left hit, then the merged
/// result is nearest among all primitives over `[a, b]`. Range monotonicity
/// of the primitive hit makes the capped query lose exactly the hits that
/// could not have won.
pub proof fn lemma_nearest_merge(
    sl: Seq<Primitive>,
    sr: Seq<Primitive>,
    ray: Ray,
    a: int,
    b: int,
    lres: Option<HitRecord>,
    rres: Option<HitRecord>,
)
    requires
        iabs(a) <= T_MAX as int,
        iabs(b) <= T_MAX as int,
        is_nearest_hit(sl, ray, a, b, lres),
        match lres {
            Some(h) => {
                &&& a < h.t ==> is_nearest_hit(sr, ray, a, h.t as int, rres)
                &&& match rres {
                    Some(h2) => a <= h2.t <= h.t && exists|j: int|
                        0 <= j < sr.len() && #[trigger] prim_hit_spec(
                            sr[j],
                            ray,
                            a,
                            h.t as int,
                        ) == Some(h2),
                    None => true,
                }
            },
            None => is_nearest_hit(sr, ray, a, b, rres),
        },
    ensures
        is_nearest_hit(sl + sr, ray, a, b, merge_res(lres, rres)),
{
    let s = sl + sr;
    match lres {
        None => {
            match rres {
                None => {
                    assert forall|i: int| 0 <= i < s.len() implies (#[trigger] prim_hit_spec(
                        s[i],
                        ray,
                        a,
                        b,
                    )) is None by {
                        if i < sl.len() {
                            assert(s[i] == sl[i]);
                        } else {
                            assert(s[i] == sr[i - sl.len()]);
                        }
                    }
                },
                Some(h2) => {
                    let j = choose|j: int|
                        0 <= j < sr.len() && #[trigger] prim_hit_spec(sr[j], ray, a, b) == Some(
                            h2,
                        );
                    assert(s[sl.len() + j] == sr[j]);
                    assert(prim_hit_spec(s[sl.len() + j], ray, a, b) == Some(h2));
                    assert forall|i: int| 0 <= i < s.len() implies hit_le(
                        h2,
                        #[trigger] prim_hit_spec(s[i], ray, a, b),
                    ) by {
                        if i < sl.len() {
                            assert(s[i] == sl[i]);
                            assert(prim_hit_spec(sl[i], ray, a, b) is None);
                        } else {
                            assert(s[i] == sr[i - sl.len()]);
                            assert(hit_le(h2, prim_hit_spec(sr[i - sl.len()], ray, a, b)));
                        }
                    }
                },
            }
        },
        Some(h) => {
            let ht = h.t as int;
            match rres {
                Some(h2) => {
                    // The winning right hit, found over the capped range, is
                    // the same hit over the full range.
                    let j = choose|j: int|
                        0 <= j < sr.len() && #[trigger] prim_hit_spec(sr[j], ray, a, ht) == Some(
                            h2,
                        );
                    lemma_prim_hit_shrink(sr[j], ray, a, b, ht);
                    assert(prim_hit_spec(sr[j], ray, a, b) == Some(h2));
                    assert(s[sl.len() + j] == sr[j]);
                    assert forall|i: int| 0 <= i < s.len() implies hit_le(
                        h2,
                        #[trigger] prim_hit_spec(s[i], ray, a, b),
                    ) by {
                        if i < sl.len() {
                            assert(s[i] == sl[i]);
                            assert(hit_le(h, prim_hit_spec(sl[i], ray, a, b)));
                        } else {
                            let p = sr[i - sl.len()];
                            assert(s[i] == p);
                            if a < ht {
                                lemma_prim_hit_shrink(p, ray, a, b, ht);
                                match prim_hit_spec(p, ray, a, b) {
                                    Some(u) => {
                                        if u.t <= ht {
                                            assert(prim_hit_spec(p, ray, a, ht) == Some(u));
                                            assert(hit_le(h2, prim_hit_spec(p, ray, a, ht)));
                                        }
                                    },
                                    None => {},
                                }
                            } else {
                                // The capped range collapsed to one point: any
                                // hit over the full range lies at or past it.
                                lemma_prim_hit_in_range(p, ray, a, b);
                            }
                        }
                    }
                },
                None => {
                    // Nothing on the right beats the left hit.
                    let j = choose|j: int|
                        0 <= j < sl.len() && #[trigger] prim_hit_spec(sl[j], ray, a, b) == Some(
                            h,
                        );
                    assert(s[j] == sl[j]);
                    assert forall|i: int| 0 <= i < s.len() implies hit_le(
                        h,
                        #[trigger] prim_hit_spec(s[i], ray, a, b),
                    ) by {
                        if i < sl.len() {
                            assert(s[i] == sl[i]);
                            assert(hit_le(h, prim_hit_spec(sl[i], ray, a, b)));
                        } else {
                            let p = sr[i - sl.len()];
                            assert(s[i] == p);
                            if a < ht {
                                lemma_prim_hit_shrink(p, ray, a, b, ht);
                                match prim_hit_spec(p, ray, a, b) {
                                    Some(u) => {
                                        assert(prim_hit_spec(p, ray, a, ht) is None);
                                        assert(shrink_expect(Some(u), ht) is None);
                                    },
                                    None => {},
                                }
                            } else {
                                lemma_prim_hit_in_range(p, ray, a, b);
                            }
                        }
                    }
                },
            }
        },
    }
}

impl BVH {
    /// Nearest hit under this node. The result is exactly `bvh_hit_spec`,
    /// the recursive walk itself; unconditionally, a reported hit lies in
    /// the query range and is some leaf primitive's hit over it; and on a
    /// nondegenerate range, under the pruning hypothesis for the primitives,
    /// the result is the nearest hit among all of them, exactly as the
    /// linear scan reports.
    pub fn hit(&self, ray: &Ray, t_min: i64, t_max: i64) -> (res: Option<HitRecord>)
        requires
            bvh_wf(*self),
            ray_within(*ray),
            iabs(t_min as int) <= T_MAX as int,
            iabs(t_max as int) <= T_MAX as int,
        ensures
            res == bvh_hit_spec(*self, *ray, t_min as int, t_max as int),
            match res {
                Some(h) => t_min <= h.t <= t_max && exists|i: int|
                    0 <= i < leaves(*self).len() && #[trigger] prim_hit_spec(
                        leaves(*self)[i],
                        *ray,
                        t_min as int,
                        t_max as int,
                    ) == Some(h),
                None => true,
            },
            t_min < t_max && all_covered(leaves(*self), *ray) ==> is_nearest_hit(
                leaves(*self),
                *ray,
                t_min as int,
                t_max as int,
                res,
            ),
        decreases *self,
    {
        match self {
            BVH::Leaf { prim } => {
                let r = prim.hit(ray, t_min, t_max);
                proof {
                    lemma_prim_hit_in_range(*prim, *ray, t_min as int, t_max as int);
                    assert(leaves(*self) == seq![*prim]);
                    assert(leaves(*self)[0] == *prim);
                }
                r
            },
            BVH::Node { left, right, bounding_box } => {
                let ghost ll = leaves(**left);
                let ghost rl = leaves(**right);
                proof {
                    assert(leaves(*self) == ll + rl);
                    if all_covered(leaves(*self), *ray) {
                        assert forall|i: int| 0 <= i < ll.len() implies covered(
                            #[trigger] ll[i],
                            *ray,
                        ) by {
                            assert(ll[i] == leaves(*self)[i]);
                        }
                        assert forall|i: int| 0 <= i < rl.len() implies covered(
                            #[trigger] rl[i],
                            *ray,
                        ) by {
                            assert(rl[i] == leaves(*self)[ll.len() + i]);
                        }
                    }
                }
                if !bounding_box.hit(ray, t_min, t_max) {
                    proof {
                        if t_min < t_max && all_covered(leaves(*self), *ray) {
                            lemma_box_miss(*self, *ray, t_min as int, t_max as int);
                        }
                    }
                    return None;
                }
                let lres = left.hit(ray, t_min, t_max);
                match lres {
                    Some(h) => {
                        let rres = right.hit(ray, t_min, h.t);
                        proof {
                            if t_min < t_max && all_covered(leaves(*self), *ray) {
                                lemma_nearest_merge(
                                    ll,
                                    rl,
                                    *ray,
                                    t_min as int,
                                    t_max as int,
                                    lres,
                                    rres,
                                );
                            }
                            match rres {
                                Some(h2) => {
                                    // The capped right hit is the same hit
                                    // over the full range.
                                    let j = choose|j: int|
                                        0 <= j < rl.len() && #[trigger] prim_hit_spec(
                                            rl[j],
                                            *ray,
                                            t_min as int,
                                            h.t as int,
                                        ) == Some(h2);
                                    lemma_prim_hit_shrink(
                                        rl[j],
                                        *ray,
                                        t_min as int,
                                        t_max as int,
                                        h.t as int,
                                    );
                                    assert(leaves(*self)[ll.len() + j] == rl[j]);
                                    assert(prim_hit_spec(
                                        leaves(*self)[ll.len() + j],
                                        *ray,
                                        t_min as int,
                                        t_max as int,
                                    ) == Some(h2));
                                },
                                None => {
                                    let j = choose|j: int|
                                        0 <= j < ll.len() && #[trigger] prim_hit_spec(
                                            ll[j],
                                            *ray,
                                            t_min as int,
                                            t_max as int,
                                        ) == Some(h);
                                    assert(leaves(*self)[j] == ll[j]);
                                },
                            }
                        }
                        match rres {
                            Some(h2) => Some(h2),
                            None => Some(h),
                        }
                    },
                    None => {
                        let rres = right.hit(ray, t_min, t_max);
                        proof {
                            if t_min < t_max && all_covered(leaves(*self), *ray) {
                                lemma_nearest_merge(
                                    ll,
                                    rl,
                                    *ray,
                                    t_min as int,
                                    t_max as int,
                                    lres,
                                    rres,
                                );
                            }
                            match rres {
                                Some(h2) => {
                                    let j = choose|j: int|
                                        0 <= j < rl.len() && #[trigger] prim_hit_spec(
                                            rl[j],
                                            *ray,
                                            t_min as int,
                                            t_max as int,
                                        ) == Some(h2);
                                    assert(leaves(*self)[ll.len() + j] == rl[j]);
                                },
                                None => {},
                            }
                        }
                        rres
                    },
                }
            },
        }
    }

    /// The box this node prunes with.
    pub fn bounding_box(&self) -> (bx: AABB)
        requires
            bvh_wf(*self),
        ensures
            bx == node_box(*self),
    {
        match self {
            BVH::Leaf { prim } => prim.bounding_box(),
            BVH::Node { left, right, bounding_box } => *bounding_box,
        }
    }

    /// Build a tree from a nonempty primitive list. One axis is chosen at
    /// random for this node alone; one primitive makes a leaf; two are
    /// ordered by their boxes' minimum coordinate on that axis (the smaller
    /// key goes left, a tie keeps neither order in particular); more are
    /// sorted by it and split at the midpoint, each half built
    /// independently. The leaves carry exactly the primitives given, and
    /// every interior box is the union of its children's.
    #[verifier::rlimit(60)]
    pub fn new(objects: Vec<Primitive>, rng: &mut rand::rngs::StdRng) -> (r: BVH)
        requires
            objects@.len() >= 1,
            prims_within(objects@),
        ensures
            bvh_wf(r),
            leaves(r).to_multiset() == objects@.to_multiset(),
            objects@.len() == 1 ==> leaves(r) == seq![objects@[0]],
            objects@.len() == 2 ==> exists|axis: int|
                0 <= axis < 3 && leaves(r) == #[trigger] two_ordered(
                    objects@[0],
                    objects@[1],
                    axis,
                ),
        decreases objects@.len(),
    {
        let axis = rand_axis(rng);
        let n = objects.len();
        if n == 1 {
            let prim = objects[0];
            proof {
                assert(prim_within(objects@[0]));
                assert(objects@ =~= seq![prim]);
                assert(bvh_wf(BVH::Leaf { prim }));
                assert(leaves(BVH::Leaf { prim }) =~= seq![prim]);
            }
            BVH::Leaf { prim }
        } else if n == 2 {
            let p0 = objects[0];
            let p1 = objects[1];
            let (pl, pr) = if axis_key(&p0, axis) < axis_key(&p1, axis) {
                (p0, p1)
            } else {
                (p1, p0)
            };
            let bb = AABB::surrounding_box(pl.bounding_box(), pr.bounding_box());
            let node = BVH::Node {
                left: Box::new(BVH::Leaf { prim: pl }),
                right: Box::new(BVH::Leaf { prim: pr }),
                bounding_box: bb,
            };
            proof {
                assert(prim_within(objects@[0]));
                assert(prim_within(objects@[1]));
                lemma_prim_box_within(pl);
                lemma_prim_box_within(pr);
                assert(leaves(node) == two_ordered(objects@[0], objects@[1], axis as int)) by {
                    assert(leaves(BVH::Leaf { prim: pl }) =~= seq![pl]);
                    assert(leaves(BVH::Leaf { prim: pr }) =~= seq![pr]);
                    assert(leaves(node) =~= seq![pl] + seq![pr]);
                    assert(seq![pl] + seq![pr] =~= seq![pl, pr]);
                };
                assert(leaves(BVH::Leaf { prim: pl }) =~= seq![pl]);
                assert(leaves(BVH::Leaf { prim: pr }) =~= seq![pr]);
                assert(leaves(node) =~= seq![pl] + seq![pr]);
                assert(seq![pl] + seq![pr] =~= seq![pl, pr]);
                lemma_two_multiset(objects@, p0, p1, pl, pr);
                assert(bvh_wf(BVH::Leaf { prim: pl }));
                assert(bvh_wf(BVH::Leaf { prim: pr }));
                assert(bvh_wf(node));
                assert(leaves(node).to_multiset() == objects@.to_multiset());
            }
            node
        } else {
            let mut left_half = sort_by_axis(objects, axis);
            let ghost sorted_view = left_half@;
            let mid = n / 2;
            let right_half = left_half.split_off(mid);
            proof {
                assert(sorted_view =~= left_half@ + right_half@);
                lemma_multiset_commutative(left_half@, right_half@);
                assert forall|i: int| 0 <= i < left_half@.len() implies prim_within(
                    #[trigger] left_half@[i],
                ) by {
                    assert(left_half@[i] == sorted_view[i]);
                }
                assert forall|i: int| 0 <= i < right_half@.len() implies prim_within(
                    #[trigger] right_half@[i],
                ) by {
                    assert(right_half@[i] == sorted_view[left_half@.len() + i]);
                }
            }
            let left = BVH::new(left_half, rng);
            let right = BVH::new(right_half, rng);
            let bb = AABB::surrounding_box(left.bounding_box(), right.bounding_box());
            proof {
                lemma_node_box_within(left);
                lemma_node_box_within(right);
                lemma_multiset_commutative(leaves(left), leaves(right));
            }
            let ghost gl = left;
            let ghost gr = right;
            let node = BVH::Node { left: Box::new(left), right: Box::new(right), bounding_box: bb };
            proof {
                assert(node_box(node) == bb);
                assert(box_contains(bb, node_box(gl)));
                assert(box_contains(bb, node_box(gr)));
                assert(box_within(bb, PRIM_BOX_MAX as int));
                assert(bvh_wf(gl));
                assert(leaves(node) == leaves(gl) + leaves(gr));
                assert(bvh_wf(node));
            }
            node
        }
    }
}

/// The multiset of a two-element sequence is the same whichever way the pair
/// is ordered.
proof fn lemma_two_multiset(s: Seq<Primitive>, p0: Primitive, p1: Primitive, pl: Primitive, pr: Primitive)
    requires
        s.len() == 2,
        s[0] == p0,
        s[1] == p1,
        (pl == p0 && pr == p1) || (pl == p1 && pr == p0),
    ensures
        seq![pl, pr].to_multiset() == s.to_multiset(),
{
    assert(s =~= seq![p0, p1]);
    broadcast use vstd::seq_lib::group_to_multiset_ensures;
    broadcast use vstd::multiset::group_multiset_axioms;

    assert(seq![pl, pr] =~= Seq::<Primitive>::empty().push(pl).push(pr));
    assert(seq![p0, p1] =~= Seq::<Primitive>::empty().push(p0).push(p1));
    assert(Seq::<Primitive>::empty().push(pl).push(pr).to_multiset()
        =~= Seq::<Primitive>::empty().to_multiset().insert(pl).insert(pr));
    assert(Seq::<Primitive>::empty().push(p0).push(p1).to_multiset()
        =~= Seq::<Primitive>::empty().to_multiset().insert(p0).insert(p1));
    assert(Seq::<Primitive>::empty().to_multiset().insert(pl).insert(pr)
        =~= Seq::<Primitive>::empty().to_multiset().insert(p0).insert(p1));
}

/// The sort key: the bounding box's minimum coordinate on the chosen axis.
pub open spec fn key_spec(p: Primitive, axis: int) -> int {
    vcomp(prim_box_spec(p).minimum, axis)
}

/// Two primitives ordered by the axis key: the strictly smaller key goes
/// left; on a tie the pair is swapped, which no caller may depend on.
pub open spec fn two_ordered(p0: Primitive, p1: Primitive, axis: int) -> Seq<Primitive> {
    if key_spec(p0, axis) < key_spec(p1, axis) {
        seq![p0, p1]
    } else {
        seq![p1, p0]
    }
}

fn axis_key(p: &Primitive, axis: usize) -> (k: i64)
    requires
        prim_within(*p),
        axis < 3,
    ensures
        k as int == key_spec(*p, axis as int),
{
    let bx = p.bounding_box();
    if axis == 0 {
        bx.minimum.x
    } else if axis == 1 {
        bx.minimum.y
    } else {
        bx.minimum.z
    }
}

/// Stable selection sort by the axis key: repeatedly move the leftmost
/// minimal element over, so equal keys keep their input order.
fn sort_by_axis(v: Vec<Primitive>, axis: usize) -> (out: Vec<Primitive>)
    requires
        axis < 3,
        prims_within(v@),
    ensures
        out@.to_multiset() == v@.to_multiset(),
        out@.len() == v@.len(),
        prims_within(out@),
        forall|i: int, j: int|
            0 <= i < j < out@.len() ==> key_spec(out@[i], axis as int) <= key_spec(
                out@[j],
                axis as int,
            ),
{
    broadcast use vstd::seq_lib::group_to_multiset_ensures;

    let mut rem = v;
    let mut out: Vec<Primitive> = Vec::new();
    let ghost orig = rem@;
    while rem.len() > 0
        invariant
            axis < 3,
            out@.to_multiset().add(rem@.to_multiset()) == orig.to_multiset(),
            out@.len() + rem@.len() == orig.len(),
            prims_within(out@),
            prims_within(rem@),
            forall|i: int, j: int|
                0 <= i < j < out@.len() ==> key_spec(out@[i], axis as int) <= key_spec(
                    out@[j],
                    axis as int,
                ),
            forall|i: int, j: int|
                0 <= i < out@.len() && 0 <= j < rem@.len() ==> key_spec(
                    #[trigger] out@[i],
                    axis as int,
                ) <= key_spec(#[trigger] rem@[j], axis as int),
        decreases rem@.len(),
    {
        let mut m: usize = 0;
        let mut mk = axis_key(&rem[0], axis);
        let mut k: usize = 1;
        while k < rem.len()
            invariant
                axis < 3,
                prims_within(rem@),
                0 < rem@.len(),
                0 <= m < k <= rem@.len() || (m == 0 && k <= 1 && rem@.len() >= 1),
                m < rem@.len(),
                mk == key_spec(rem@[m as int], axis as int),
                forall|j: int| 0 <= j < k ==> mk <= key_spec(#[trigger] rem@[j], axis as int),
            decreases rem@.len() - k,
        {
            let kk = axis_key(&rem[k], axis);
            if kk < mk {
                m = k;
                mk = kk;
            }
            k = k + 1;
        }
        let ghost rem_before = rem@;
        let ghost out_before = out@;
        let e = rem.remove(m);
        out.push(e);
        proof {
            broadcast use vstd::multiset::group_multiset_axioms;

            assert(rem@ == rem_before.remove(m as int));
            assert(out@ == out_before.push(e));
            // Multiset bookkeeping: one occurrence moved across.
            vstd::seq_lib::to_multiset_remove(rem_before, m as int);
            vstd::seq_lib::to_multiset_build(out_before, e);
            assert(rem@.to_multiset() == rem_before.to_multiset().remove(e));
            assert(out@.to_multiset() == out_before.to_multiset().insert(e));
            vstd::seq_lib::to_multiset_contains(rem_before, e);
            assert(rem_before.contains(e)) by {
                assert(rem_before[m as int] == e);
            }
            assert(rem_before.to_multiset().count(e) > 0);
            assert(out@.to_multiset().add(rem@.to_multiset()) =~= out_before.to_multiset().add(
                rem_before.to_multiset(),
            ));
            // Order bookkeeping: the removed element was minimal, so it goes
            // after everything placed and before everything left.
            assert forall|j: int| 0 <= j < rem@.len() implies key_spec(e, axis as int) <= key_spec(
                #[trigger] rem@[j],
                axis as int,
            ) by {
                if j < m {
                    assert(rem@[j] == rem_before[j]);
                } else {
                    assert(rem@[j] == rem_before[j + 1]);
                }
            }
            assert forall|i: int, j: int|
                0 <= i < out@.len() && 0 <= j < rem@.len() implies key_spec(
                #[trigger] out@[i],
                axis as int,
            ) <= key_spec(#[trigger] rem@[j], axis as int) by {
                if i < out_before.len() {
                    assert(out@[i] == out_before[i]);
                    if j < m {
                        assert(rem@[j] == rem_before[j]);
                    } else {
                        assert(rem@[j] == rem_before[j + 1]);
                    }
                } else {
                    assert(out@[i] == e);
                }
            }
            assert forall|i: int| 0 <= i < rem@.len() implies prim_within(
                #[trigger] rem@[i],
            ) by {
                if i < m {
                    assert(rem@[i] == rem_before[i]);
                } else {
                    assert(rem@[i] == rem_before[i + 1]);
                }
            }
        }
    }
    proof {
        broadcast use vstd::multiset::group_multiset_axioms;

        vstd::seq_lib::to_multiset_len(rem@);
        assert(rem@.to_multiset().len() == 0);
        assert(rem@.to_multiset() =~= Multiset::<Primitive>::empty());
        assert(out@.to_multiset() =~= orig.to_multiset());
    }
    out
}

impl HittableList {
    /// Consume the assembled list and build the tree it renders through.
    pub fn into_bvh(self, rng: &mut rand::rngs::StdRng) -> (r: BVH)
        requires
            self.objects@.len() >= 1,
            prims_within(self.objects@),
        ensures
            bvh_wf(r),
            leaves(r).to_multiset() == self.objects@.to_multiset(),
    {
        BVH::new(self.objects, rng)
    }
}

/// Tree and list agree. Given multiset-equal primitive sequences (any
/// permutation of the same set), a result that is nearest for the one and a
/// result that is nearest for the other miss together or hit at the same
/// nearest parameter. Together with the contracts of `BVH::hit` and
/// `HittableList::hit`, which each establish `is_nearest_hit` (the tree
/// under the `covered` hypothesis), this says the two intersection routines
/// are interchangeable.
pub proof fn lemma_bvh_matches_list(
    tree_prims: Seq<Primitive>,
    list_prims: Seq<Primitive>,
    ray: Ray,
    a: int,
    b: int,
    tree_res: Option<HitRecord>,
    list_res: Option<HitRecord>,
)
    requires
        iabs(a) <= T_MAX as int,
        iabs(b) <= T_MAX as int,
        tree_prims.to_multiset() == list_prims.to_multiset(),
        is_nearest_hit(tree_prims, ray, a, b, tree_res),
        is_nearest_hit(list_prims, ray, a, b, list_res),
    ensures
        same_hit_t(tree_res, list_res),
        match (tree_res, list_res) {
            (Some(h1), Some(h2)) => h1.point == h2.point,
            _ => true,
        },
{
    lemma_nearest_hit_permuted(tree_prims, list_prims, ray, a, b, tree_res);
    lemma_nearest_hit_unique(list_prims, ray, a, b, tree_res, list_res);
    match (tree_res, list_res) {
        (Some(h1), Some(h2)) => {
            // Both records stand where the ray is at the (equal) parameter,
            // even when exact ties let them name different primitives.
            let i1 = choose|i: int|
                0 <= i < list_prims.len() && #[trigger] prim_hit_spec(list_prims[i], ray, a, b)
                    == Some(h1);
            let i2 = choose|i: int|
                0 <= i < list_prims.len() && #[trigger] prim_hit_spec(list_prims[i], ray, a, b)
                    == Some(h2);
            lemma_prim_hit_point(list_prims[i1], ray, a, b);
            lemma_prim_hit_point(list_prims[i2], ray, a, b);
        },
        _ => {},
    }
}

/// The pruning hypothesis carries across any reordering of the primitives.
pub proof fn lemma_all_covered_permuted(s1: Seq<Primitive>, s2: Seq<Primitive>, ray: Ray)
    requires
        s1.to_multiset() == s2.to_multiset(),
        all_covered(s1, ray),
    ensures
        all_covered(s2, ray),
{
    s1.to_multiset_ensures();
    s2.to_multiset_ensures();
    assert forall|i: int| 0 <= i < s2.len() implies covered(#[trigger] s2[i], ray) by {
        assert(s2.contains(s2[i]));
        assert(s2.to_multiset().count(s2[i]) > 0);
        assert(s1.contains(s2[i]));
        let j = choose|j: int| 0 <= j < s1.len() && s1[j] == s2[i];
        assert(covered(s1[j], ray));
    }
}

} // verus!
