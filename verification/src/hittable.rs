//! Hit records, the face-normal convention, and the scene-level nearest-hit
//! scan over all shapes.

use vstd::prelude::*;

verus! {

use crate::fixed::SCALE;
use crate::materials::{wf_material, Material};
use crate::ray::Ray;
use crate::vec3::{bounded, dot_s, lensq_s, neg_s, Vec3, VMAX};

/// Largest coordinate (in fixed-point millionths) of a sphere center, and
/// largest radius.
pub const COORD_MAX: i64 = 1_050_000_000;

/// Smallest radius the intersection code accepts; smaller spheres are
/// degenerate at the fixed-point resolution.
pub const RADIUS_MIN: i64 = 100_000;

/// Largest coordinate of a ray origin (hit points stay within it).
pub const ORIGIN_MAX: i64 = 2_200_000_000;

/// Largest component of a ray direction.
pub const DIR_MAX: i64 = 1_200_000_000;

/// Upper limit on ray parameters: the renderer's horizon, standing in for
/// an unbounded ray.
pub const T_LIMIT: i64 = 1_000_000_000_000;

/// A ray whose origin and direction the intersection arithmetic accepts.
pub open spec fn wf_ray(r: Ray) -> bool {
    &&& bounded(r.origin_s(), ORIGIN_MAX as int)
    &&& bounded(r.direction_s(), DIR_MAX as int)
}

/// A surface normal as the intersection code hands it out: unit length up
/// to rounding, every component close to one.
pub open spec fn wf_normal(n: Vec3) -> bool {
    &&& lensq_s(n) <= 3 * (SCALE as int) / 2
    &&& bounded(n, 5 * (SCALE as int) / 4)
}

#[derive(Clone, Copy, PartialEq, Eq, Structural)]
pub struct HitRecord {
    pub point: Vec3,
    pub normal: Vec3,
    pub t: i64,
    pub front_face: bool,
    pub material: Material,
}

/// A hit record the scatter arithmetic accepts.
pub open spec fn wf_hit_record(h: HitRecord) -> bool {
    &&& bounded(h.point, ORIGIN_MAX as int)
    &&& wf_normal(h.normal)
    &&& 0 < h.t <= T_LIMIT
    &&& wf_material(h.material)
}

/// The face-normal convention: `front_face` is whether the ray runs against
/// the outward normal, and the stored normal always opposes the ray.
pub open spec fn face_normal_s(dir: Vec3, outward: Vec3) -> (bool, Vec3) {
    let ff = dot_s(dir, outward) < 0;
    (ff, if ff {
        outward
    } else {
        neg_s(outward)
    })
}

impl HitRecord {
    /// Orient the stored normal against the incoming ray and record which
    /// side was struck.
    pub fn set_face_normal(&mut self, ray: &Ray, outward_normal: &Vec3)
        requires
            bounded(ray.direction_s(), VMAX as int),
            bounded(*outward_normal, VMAX as int),
        ensures
            final(self).front_face == face_normal_s(ray.direction_s(), *outward_normal).0,
            final(self).normal == face_normal_s(ray.direction_s(), *outward_normal).1,
            final(self).point == old(self).point,
            final(self).t == old(self).t,
            final(self).material == old(self).material,
    {
        let d: i64 = ray.direction().dot(*outward_normal);
        self.front_face = d < 0;
        self.normal = if self.front_face {
            *outward_normal
        } else {
            outward_normal.neg()
        };
    }
}

/// The nearest hit over a sequence of spheres, scanned left to right with
/// the upper bound narrowed to the best parameter found so far.
pub open spec fn scene_hit_s(shapes: Seq<crate::shapes::Sphere>, r: Ray, tmin: int, tmax: int)
    -> Option<HitRecord>
    decreases shapes.len(),
{
    if shapes.len() == 0 {
        None
    } else {
        let prev = scene_hit_s(shapes.drop_last(), r, tmin, tmax);
        match prev {
            None => crate::shapes::sphere_hit_s(shapes.last(), r, tmin, tmax),
            Some(rec) => match crate::shapes::sphere_hit_s(shapes.last(), r, tmin, rec.t as int) {
                Some(rec2) => Some(rec2),
                None => Some(rec),
            },
        }
    }
}

/// The nearest qualifying hit across all shapes of the scene: a linear
/// scan that narrows the admissible range to the best parameter so far.
pub fn hit(world: &Vec<crate::shapes::Sphere>, ray: &Ray, ray_tmin: i64, ray_tmax: i64) -> (res:
    Option<HitRecord>)
    requires
        forall|i: int| 0 <= i < world@.len() ==> crate::shapes::wf_sphere(#[trigger] world@[i]),
        wf_ray(*ray),
        0 <= ray_tmin <= ray_tmax <= T_LIMIT,
    ensures
        res == scene_hit_s(world@, *ray, ray_tmin as int, ray_tmax as int),
        res.is_some() ==> {
            &&& wf_hit_record(res->Some_0)
            &&& ray_tmin < res->Some_0.t < ray_tmax
        },
{
    let mut best: Option<HitRecord> = None;
    let n: usize = world.len();
    let mut i: usize = 0;
    while i < n
        invariant
            n == world@.len(),
            0 <= i <= n,
            forall|k: int| 0 <= k < world@.len() ==> crate::shapes::wf_sphere(#[trigger] world@[k]),
            wf_ray(*ray),
            0 <= ray_tmin <= ray_tmax <= T_LIMIT,
            best == scene_hit_s(world@.take(i as int), *ray, ray_tmin as int, ray_tmax as int),
            best.is_some() ==> {
                &&& wf_hit_record(best->Some_0)
                &&& ray_tmin < best->Some_0.t < ray_tmax
            },
        decreases n - i,
    {
        let bound: i64 = match &best {
            Some(rec) => rec.t,
            None => ray_tmax,
        };
        let h = world[i].hit(ray, ray_tmin, bound);
        proof {
            assert(world@.take(i + 1).drop_last() =~= world@.take(i as int));
            assert(world@.take(i + 1).last() == world@[i as int]);
        }
        if h.is_some() {
            best = h;
        }
        i = i + 1;
    }
    proof {
        assert(world@.take(n as int) =~= world@);
    }
    best
}

/// The scan returns the globally nearest qualifying hit: nothing exactly
/// when no shape reports a hit over the full range, and otherwise some
/// shape's hit over the full range whose parameter no other shape
/// undercuts.
pub proof fn lemma_scene_hit_nearest(
    shapes: Seq<crate::shapes::Sphere>,
    r: Ray,
    tmin: int,
    tmax: int,
)
    requires
        0 <= tmin <= tmax <= T_LIMIT,
    ensures
        scene_hit_s(shapes, r, tmin, tmax) is None ==> forall|i: int|
            0 <= i < shapes.len() ==> crate::shapes::sphere_hit_s(
                #[trigger] shapes[i],
                r,
                tmin,
                tmax,
            ) is None,
        scene_hit_s(shapes, r, tmin, tmax) is Some ==> {
            let rec = scene_hit_s(shapes, r, tmin, tmax)->Some_0;
            &&& tmin < rec.t < tmax
            &&& rec.point == crate::vec3::v3(r.at_s(rec.t as int))
            &&& exists|i: int|
                0 <= i < shapes.len() && crate::shapes::sphere_hit_s(
                    #[trigger] shapes[i],
                    r,
                    tmin,
                    tmax,
                ) == Some(rec)
            &&& forall|i: int|
                0 <= i < shapes.len() ==> match crate::shapes::sphere_hit_s(
                    #[trigger] shapes[i],
                    r,
                    tmin,
                    tmax,
                ) {
                    Some(o) => rec.t <= o.t,
                    None => true,
                }
        },
    decreases shapes.len(),
{
    if shapes.len() == 0 {
    } else {
        let init = shapes.drop_last();
        let last = shapes.last();
        lemma_scene_hit_nearest(init, r, tmin, tmax);
        assert(forall|i: int| 0 <= i < init.len() ==> init[i] == #[trigger] shapes[i]);
        assert(last == shapes[shapes.len() - 1]);
        match scene_hit_s(init, r, tmin, tmax) {
            None => {
                match crate::shapes::sphere_hit_s(last, r, tmin, tmax) {
                    None => {},
                    Some(rec) => {
                        crate::shapes::lemma_sphere_hit_form(last, r, tmin, tmax);
                        assert(crate::shapes::sphere_hit_s(
                            shapes[shapes.len() - 1],
                            r,
                            tmin,
                            tmax,
                        ) == Some(rec));
                    },
                }
            },
            Some(rec0) => {
                crate::shapes::lemma_sphere_hit_shrink(last, r, tmin, rec0.t as int, tmax);
                match crate::shapes::sphere_hit_s(last, r, tmin, rec0.t as int) {
                    Some(rec2) => {
                        assert(crate::shapes::sphere_hit_s(last, r, tmin, tmax) == Some(rec2));
                        assert(rec2.t < rec0.t);
                        crate::shapes::lemma_sphere_hit_form(last, r, tmin, tmax);
                        assert(crate::shapes::sphere_hit_s(
                            shapes[shapes.len() - 1],
                            r,
                            tmin,
                            tmax,
                        ) == Some(rec2));
                    },
                    None => {
                        let wi = choose|i: int|
                            0 <= i < init.len() && crate::shapes::sphere_hit_s(
                                #[trigger] init[i],
                                r,
                                tmin,
                                tmax,
                            ) == Some(rec0);
                        assert(crate::shapes::sphere_hit_s(shapes[wi], r, tmin, tmax) == Some(
                            rec0,
                        ));
                    },
                }
            },
        }
    }
}

/// Scene-level intersection is order independent: permuting the shape
/// list leaves the reported hit parameter and hit point unchanged (the
/// nearest surface wins either way; only the tie-broken normal and
/// material may differ between shapes touching at the same parameter).
#[verifier::rlimit(60)]
#[verifier::spinoff_prover]
pub proof fn lemma_scene_hit_order_independent(
    s1: Seq<crate::shapes::Sphere>,
    s2: Seq<crate::shapes::Sphere>,
    r: Ray,
    tmin: int,
    tmax: int,
)
    requires
        0 <= tmin <= tmax <= T_LIMIT,
        s1.to_multiset() == s2.to_multiset(),
    ensures
        match (scene_hit_s(s1, r, tmin, tmax), scene_hit_s(s2, r, tmin, tmax)) {
            (Some(a), Some(b)) => a.t == b.t && a.point == b.point,
            (None, None) => true,
            _ => false,
        },
{
    lemma_scene_hit_nearest(s1, r, tmin, tmax);
    lemma_scene_hit_nearest(s2, r, tmin, tmax);
    match scene_hit_s(s1, r, tmin, tmax) {
        Some(a) => {
            let i = choose|i: int|
                0 <= i < s1.len() && crate::shapes::sphere_hit_s(#[trigger] s1[i], r, tmin, tmax)
                    == Some(a);
            assert(s1.contains(s1[i]));
            lemma_contains_transfer(s1, s2, s1[i]);
            let j = choose|j: int| 0 <= j < s2.len() && s2[j] == s1[i];
            assert(crate::shapes::sphere_hit_s(s2[j], r, tmin, tmax) == Some(a));
            match scene_hit_s(s2, r, tmin, tmax) {
                Some(b) => {
                    let k = choose|k: int|
                        0 <= k < s2.len() && crate::shapes::sphere_hit_s(
                            #[trigger] s2[k],
                            r,
                            tmin,
                            tmax,
                        ) == Some(b);
                    assert(s2.contains(s2[k]));
                    lemma_contains_transfer(s2, s1, s2[k]);
                    let m = choose|m: int| 0 <= m < s1.len() && s1[m] == s2[k];
                    assert(crate::shapes::sphere_hit_s(s1[m], r, tmin, tmax) == Some(b));
                    assert(a.t <= b.t && b.t <= a.t);
                    assert(a.point == crate::vec3::v3(r.at_s(a.t as int)));
                    assert(b.point == crate::vec3::v3(r.at_s(b.t as int)));
                },
                None => {
                    assert(false);
                },
            }
        },
        None => {
            match scene_hit_s(s2, r, tmin, tmax) {
                Some(b) => {
                    let k = choose|k: int|
                        0 <= k < s2.len() && crate::shapes::sphere_hit_s(
                            #[trigger] s2[k],
                            r,
                            tmin,
                            tmax,
                        ) == Some(b);
                    assert(s2.contains(s2[k]));
                    lemma_contains_transfer(s2, s1, s2[k]);
                    let m = choose|m: int| 0 <= m < s1.len() && s1[m] == s2[k];
                    assert(crate::shapes::sphere_hit_s(s1[m], r, tmin, tmax) == Some(b));
                    assert(false);
                },
                None => {},
            }
        },
    }
}

/// An element of one sequence occurs in any sequence holding the same
/// multiset of elements.
proof fn lemma_contains_transfer(
    s1: Seq<crate::shapes::Sphere>,
    s2: Seq<crate::shapes::Sphere>,
    x: crate::shapes::Sphere,
)
    requires
        s1.to_multiset() == s2.to_multiset(),
        s1.contains(x),
    ensures
        s2.contains(x),
{
    s1.to_multiset_ensures();
    s2.to_multiset_ensures();
    assert(s1.to_multiset().count(x) > 0);
    assert(s2.to_multiset().count(x) > 0);
}

/// The stored normal never runs with the incoming ray: the dot product of
/// the ray direction with the oriented normal is never positive.
pub proof fn lemma_face_normal_opposes(dir: Vec3, outward: Vec3)
    requires
        bounded(dir, VMAX as int),
        bounded(outward, VMAX as int),
    ensures
        face_normal_s(dir, outward).0 <==> dot_s(dir, outward) < 0,
        dot_s(dir, face_normal_s(dir, outward).1) <= 0,
{
    if dot_s(dir, outward) >= 0 {
        assert(crate::vec3::dot_raw(dir, neg_s(outward)) == -crate::vec3::dot_raw(dir, outward))
            by (nonlinear_arith)
            requires
                neg_s(outward).x == -outward.x,
                neg_s(outward).y == -outward.y,
                neg_s(outward).z == -outward.z,
        ;
        crate::fixed::lemma_div_tz_neg(crate::vec3::dot_raw(dir, outward), SCALE as int);
    }
}

} // verus!
