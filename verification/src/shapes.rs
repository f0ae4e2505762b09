//! Sphere geometry and its exact ray-intersection test.

use vstd::prelude::*;

verus! {

use crate::fixed::{
    div_tz, fdiv, fx_div, is_sqrt_of, lemma_fdiv_in_range, lemma_sqrt_floor_is, sqrt_floor,
    ISQRT_MAX, SCALE,
};
use crate::hittable::{
    face_normal_s, wf_hit_record, wf_normal, wf_ray, HitRecord, COORD_MAX, DIR_MAX, ORIGIN_MAX,
    RADIUS_MIN, T_LIMIT,
};
use crate::materials::{wf_material, Material};
use crate::ray::Ray;
use crate::vec3::{bounded, dot_raw, dot_s, lensq_s, v3, Vec3, VMAX};

#[derive(Clone, Copy, PartialEq, Eq, Structural)]
pub struct Sphere {
    pub center: Vec3,
    pub radius: i64,
    pub material: Material,
}

/// A sphere the intersection arithmetic accepts: center within the scene
/// bound, radius positive and not degenerate at fixed-point resolution.
pub open spec fn wf_sphere(s: Sphere) -> bool {
    &&& bounded(s.center, COORD_MAX as int)
    &&& RADIUS_MIN <= s.radius <= COORD_MAX
    &&& wf_material(s.material)
}

/// Offset of the ray origin from the sphere center.
pub open spec fn oc_s(s: Sphere, r: Ray) -> Vec3 {
    Vec3 {
        x: (r.origin.x - s.center.x) as i64,
        y: (r.origin.y - s.center.y) as i64,
        z: (r.origin.z - s.center.z) as i64,
    }
}

/// Quadratic coefficient `a`: raw squared length of the direction.
pub open spec fn qa_s(s: Sphere, r: Ray) -> int {
    dot_raw(r.direction, r.direction)
}

/// Quadratic half-coefficient `h`: raw dot of offset and direction.
pub open spec fn qh_s(s: Sphere, r: Ray) -> int {
    dot_raw(oc_s(s, r), r.direction)
}

/// Quadratic coefficient `c`: raw squared offset length minus raw squared
/// radius.
pub open spec fn qc_s(s: Sphere, r: Ray) -> int {
    dot_raw(oc_s(s, r), oc_s(s, r)) - s.radius * s.radius
}

/// Discriminant of the intersection quadratic (raw scale).
pub open spec fn disc_s(s: Sphere, r: Ray) -> int {
    qh_s(s, r) * qh_s(s, r) - qa_s(s, r) * qc_s(s, r)
}

/// Near intersection parameter (fixed-point scale).
pub open spec fn root1_s(s: Sphere, r: Ray) -> int {
    div_tz((-qh_s(s, r) - sqrt_floor(disc_s(s, r))) * SCALE, qa_s(s, r))
}

/// Far intersection parameter (fixed-point scale).
pub open spec fn root2_s(s: Sphere, r: Ray) -> int {
    div_tz((-qh_s(s, r) + sqrt_floor(disc_s(s, r))) * SCALE, qa_s(s, r))
}

/// The intersection parameter the test reports: the near root when it lies
/// strictly inside `(tmin, tmax)`, else the far root, else nothing.
pub open spec fn chosen_t_s(s: Sphere, r: Ray, tmin: int, tmax: int) -> Option<int> {
    if qa_s(s, r) == 0 || disc_s(s, r) < 0 {
        None
    } else if tmin < root1_s(s, r) && root1_s(s, r) < tmax {
        Some(root1_s(s, r))
    } else if tmin < root2_s(s, r) && root2_s(s, r) < tmax {
        Some(root2_s(s, r))
    } else {
        None
    }
}

/// The guard that keeps reported hits geometrically sane at fixed-point
/// resolution: the hit point must lie within a hundredth of a unit of the
/// sphere's surface, componentwise and by squared length of the scaled
/// normal.
pub open spec fn hit_guard_s(s: Sphere, pcx: int, pcy: int, pcz: int, outward: Vec3) -> bool {
    &&& -(s.radius + 10_000) <= pcx <= s.radius + 10_000
    &&& -(s.radius + 10_000) <= pcy <= s.radius + 10_000
    &&& -(s.radius + 10_000) <= pcz <= s.radius + 10_000
    &&& lensq_s(outward) <= 3 * (SCALE as int) / 2
}

/// The full result of the sphere intersection test.
pub open spec fn sphere_hit_s(s: Sphere, r: Ray, tmin: int, tmax: int) -> Option<HitRecord> {
    match chosen_t_s(s, r, tmin, tmax) {
        None => None,
        Some(t) => {
            let p = v3(r.at_s(t));
            let pcx = p.x - s.center.x;
            let pcy = p.y - s.center.y;
            let pcz = p.z - s.center.z;
            let outward = Vec3 {
                x: fdiv(pcx, s.radius as int) as i64,
                y: fdiv(pcy, s.radius as int) as i64,
                z: fdiv(pcz, s.radius as int) as i64,
            };
            if !hit_guard_s(s, pcx, pcy, pcz, outward) {
                None
            } else {
                let fnr = face_normal_s(r.direction, outward);
                Some(
                    HitRecord {
                        point: p,
                        normal: fnr.1,
                        t: t as i64,
                        front_face: fnr.0,
                        material: s.material,
                    },
                )
            }
        },
    }
}

impl Sphere {
    pub fn new(center: Vec3, radius: i64, material: Material) -> (s: Sphere)
        ensures
            s == (Sphere { center, radius, material }),
    {
        Sphere { center, radius, material }
    }

    /// Nearest intersection of `ray` with the sphere at a parameter
    /// strictly inside `(ray_tmin, ray_tmax)`, if any. `None` means the
    /// quadratic has no root strictly inside the range — or, one step
    /// beyond the real-valued model, that the fixed-point sanity guard
    /// (`hit_guard_s`) rejected a computed hit point lying more than a
    /// hundredth of a unit off the surface; on exact-arithmetic inputs
    /// the guard never fires (`lemma_hit_point_on_sphere`).
    pub fn hit(&self, ray: &Ray, ray_tmin: i64, ray_tmax: i64) -> (res: Option<HitRecord>)
        requires
            wf_sphere(*self),
            wf_ray(*ray),
            0 <= ray_tmin <= ray_tmax <= T_LIMIT,
        ensures
            res == sphere_hit_s(*self, *ray, ray_tmin as int, ray_tmax as int),
            res.is_some() ==> {
                &&& wf_hit_record(res->Some_0)
                &&& ray_tmin < res->Some_0.t < ray_tmax
                &&& res->Some_0.material == self.material
            },
    {
        let oc = Vec3 {
            x: ray.origin.x - self.center.x,
            y: ray.origin.y - self.center.y,
            z: ray.origin.z - self.center.z,
        };
        let dir = ray.direction;
        proof {
            lemma_quadratic_ranges(*self, *ray);
            assert(oc == oc_s(*self, *ray));
            crate::vec3::lemma_raw_products_bounded(dir, dir);
            crate::vec3::lemma_raw_products_bounded(oc, dir);
            crate::vec3::lemma_raw_products_bounded(oc, oc);
            assert(0 <= (self.radius as int) * (self.radius as int) <= 1_102_500_000_000_000_000)
                by (nonlinear_arith)
                requires
                    0 < self.radius <= 1_050_000_000,
            ;
        }
        let a: i128 = (dir.x as i128) * (dir.x as i128) + (dir.y as i128) * (dir.y as i128) + (
        dir.z as i128) * (dir.z as i128);
        let h: i128 = (oc.x as i128) * (dir.x as i128) + (oc.y as i128) * (dir.y as i128) + (
        oc.z as i128) * (dir.z as i128);
        let c: i128 = (oc.x as i128) * (oc.x as i128) + (oc.y as i128) * (oc.y as i128) + (
        oc.z as i128) * (oc.z as i128) - (self.radius as i128) * (self.radius as i128);
        if a == 0 {
            return None;
        }
        proof {
            lemma_disc_range(a as int, h as int, c as int);
        }
        let disc: i128 = h * h - a * c;
        if disc < 0 {
            return None;
        }
        let d: i128 = crate::fixed::isqrt(disc as u128) as i128;
        proof {
            lemma_sqrt_floor_is(disc as int, d as int);
        }
        let num1: i128 = -h - d;
        let num2: i128 = -h + d;
        proof {
            assert(num1 * (SCALE as i128) == (num1 as int) * (SCALE as int)
                && -(0x4000_0000_0000_0000_0000_0000_0000_0000i128 as int) < (num1 as int) * (
            SCALE as int) < 0x4000_0000_0000_0000_0000_0000_0000_0000i128 as int)
                by (nonlinear_arith)
                requires
                    -30_000_000_000_000_000_000i128 <= num1 <= 30_000_000_000_000_000_000i128,
                    SCALE == 1_000_000,
            ;
            assert(num2 * (SCALE as i128) == (num2 as int) * (SCALE as int)
                && -(0x4000_0000_0000_0000_0000_0000_0000_0000i128 as int) < (num2 as int) * (
            SCALE as int) < 0x4000_0000_0000_0000_0000_0000_0000_0000i128 as int)
                by (nonlinear_arith)
                requires
                    -30_000_000_000_000_000_000i128 <= num2 <= 30_000_000_000_000_000_000i128,
                    SCALE == 1_000_000,
            ;
        }
        let root1: i128 = crate::fixed::div_q(num1 * (SCALE as i128), a);
        let tmin_w: i128 = ray_tmin as i128;
        let tmax_w: i128 = ray_tmax as i128;
        let root: i128 = if tmin_w < root1 && root1 < tmax_w {
            root1
        } else {
            let root2: i128 = crate::fixed::div_q(num2 * (SCALE as i128), a);
            if tmin_w < root2 && root2 < tmax_w {
                root2
            } else {
                return None;
            }
        };
        let t: i64 = root as i64;
        proof {
            lemma_at_ranges(*ray, t as int);
        }
        let p: Vec3 = ray.at(t);
        let pcx: i64 = p.x - self.center.x;
        let pcy: i64 = p.y - self.center.y;
        let pcz: i64 = p.z - self.center.z;
        let slack: i64 = self.radius + 10_000;
        if pcx < -slack || pcx > slack || pcy < -slack || pcy > slack || pcz < -slack || pcz
            > slack {
            return None;
        }
        proof {
            lemma_fdiv_in_range(
                pcx as int,
                self.radius as int,
                1_050_010_000,
                100_000,
                11_000_000_000,
            );
            lemma_fdiv_in_range(
                pcy as int,
                self.radius as int,
                1_050_010_000,
                100_000,
                11_000_000_000,
            );
            lemma_fdiv_in_range(
                pcz as int,
                self.radius as int,
                1_050_010_000,
                100_000,
                11_000_000_000,
            );
        }
        let outward = Vec3 {
            x: fx_div(pcx, self.radius),
            y: fx_div(pcy, self.radius),
            z: fx_div(pcz, self.radius),
        };
        let olsq: i64 = outward.length_squared();
        if olsq > 3 * SCALE / 2 {
            return None;
        }
        proof {
            lemma_normal_comp_bound(outward);
        }
        let mut rec = HitRecord {
            point: p,
            normal: outward,
            t,
            front_face: false,
            material: self.material,
        };
        rec.set_face_normal(ray, &outward);
        proof {
            crate::vec3::lemma_lensq_neg(outward);
        }
        Some(rec)
    }
}

/// A reported hit lies exactly on the sphere's surface whenever the
/// intersection arithmetic is exact: the discriminant is a perfect
/// square, the chosen root's numerator divides evenly by the quadratic
/// coefficient, and the parametric point's products divide evenly by the
/// scale. (Away from such inputs the same holds up to fixed-point
/// rounding.) The reported parameter always lies strictly inside the
/// queried range, by the contract of `hit` itself.
#[verifier::rlimit(100)]
#[verifier::spinoff_prover]
pub proof fn lemma_hit_point_on_sphere(s: Sphere, r: Ray, tmin: int, tmax: int)
    requires
        wf_sphere(s),
        wf_ray(r),
        0 <= tmin <= tmax <= T_LIMIT,
        qa_s(s, r) > 0,
        chosen_t_s(s, r, tmin, tmax) is Some,
        sqrt_floor(disc_s(s, r)) * sqrt_floor(disc_s(s, r)) == disc_s(s, r),
        ((-qh_s(s, r) - sqrt_floor(disc_s(s, r))) * SCALE) % qa_s(s, r) == 0,
        ((-qh_s(s, r) + sqrt_floor(disc_s(s, r))) * SCALE) % qa_s(s, r) == 0,
        (chosen_t_s(s, r, tmin, tmax)->Some_0 * (r.direction.x as int)) % (SCALE as int) == 0,
        (chosen_t_s(s, r, tmin, tmax)->Some_0 * (r.direction.y as int)) % (SCALE as int) == 0,
        (chosen_t_s(s, r, tmin, tmax)->Some_0 * (r.direction.z as int)) % (SCALE as int) == 0,
    ensures
        ({
            let t = chosen_t_s(s, r, tmin, tmax)->Some_0;
            let p = r.at_s(t);
            let sc = SCALE as int;
            (sc * (p.0 - s.center.x)) * (sc * (p.0 - s.center.x)) + (sc * (p.1 - s.center.y)) * (
            sc * (p.1 - s.center.y)) + (sc * (p.2 - s.center.z)) * (sc * (p.2 - s.center.z)) == (sc
                * s.radius) * (sc * s.radius)
        }),
        sphere_hit_s(s, r, tmin, tmax) is Some,
{
    let sc = SCALE as int;
    lemma_quadratic_ranges(s, r);
    let aq = qa_s(s, r);
    let hq = qh_s(s, r);
    let cq = qc_s(s, r);
    let dd = sqrt_floor(disc_s(s, r));
    let t = chosen_t_s(s, r, tmin, tmax)->Some_0;
    let num = if t == root1_s(s, r) {
        -hq - dd
    } else {
        -hq + dd
    };
    assert(t == root1_s(s, r) || t == root2_s(s, r));
    crate::fixed::lemma_div_tz_of_multiple((-hq - dd) * SCALE, aq);
    crate::fixed::lemma_div_tz_of_multiple((-hq + dd) * SCALE, aq);
    assert(t * aq == num * sc);
    assert(num + hq == -dd || num + hq == dd);
    assert(aq * (aq * (t * t) + 2 * (hq * sc) * t + cq * (sc * sc)) == 0) by {
        lemma_distrib3_local(aq, aq * (t * t), 2 * (hq * sc) * t, cq * (sc * sc));
        assert((t * aq) * (t * aq) == aq * (aq * (t * t))) by (nonlinear_arith);
        assert(2 * ((hq * sc) * (t * aq)) == aq * (2 * (hq * sc) * t)) by (nonlinear_arith);
        assert(aq * (cq * (sc * sc)) == (aq * cq) * (sc * sc)) by (nonlinear_arith);
        assert((num * sc) * (num * sc) == (num * num) * (sc * sc)) by (nonlinear_arith);
        assert(2 * ((hq * sc) * (num * sc)) == (2 * (hq * num)) * (sc * sc)) by (nonlinear_arith);
        assert(num * num + 2 * (hq * num) + (hq * hq - dd * dd) == (num + hq) * (num + hq) - dd
            * dd) by (nonlinear_arith);
        assert((num + hq) * (num + hq) == dd * dd) by (nonlinear_arith)
            requires
                num + hq == -dd || num + hq == dd,
        ;
        assert(disc_s(s, r) == hq * hq - aq * cq);
        assert(dd * dd == hq * hq - aq * cq);
        assert(num * num + 2 * (hq * num) + aq * cq == 0) by (nonlinear_arith)
            requires
                num * num + 2 * (hq * num) + (hq * hq - dd * dd) == (num + hq) * (num + hq) - dd
                    * dd,
                (num + hq) * (num + hq) == dd * dd,
                dd * dd == hq * hq - aq * cq,
        ;
        assert((num * num) * (sc * sc) + (2 * (hq * num)) * (sc * sc) + (aq * cq) * (sc * sc) == (
        num * num + 2 * (hq * num) + aq * cq) * (sc * sc)) by (nonlinear_arith);
        assert((num * num + 2 * (hq * num) + aq * cq) * (sc * sc) == 0) by (nonlinear_arith)
            requires
                num * num + 2 * (hq * num) + aq * cq == 0,
        ;
    }
    assert(aq * (t * t) + 2 * (hq * sc) * t + cq * (sc * sc) == 0) by (nonlinear_arith)
        requires
            aq * (aq * (t * t) + 2 * (hq * sc) * t + cq * (sc * sc)) == 0,
            aq > 0,
    ;
    let oc = oc_s(s, r);
    let p = r.at_s(t);
    crate::fixed::lemma_div_tz_of_multiple(t * (r.direction.x as int), sc);
    crate::fixed::lemma_div_tz_of_multiple(t * (r.direction.y as int), sc);
    crate::fixed::lemma_div_tz_of_multiple(t * (r.direction.z as int), sc);
    assert(sc * (p.0 - s.center.x) == sc * oc.x + t * r.direction.x) by (nonlinear_arith)
        requires
            p.0 == r.origin.x + crate::fixed::fmul(t, r.direction.x as int),
            crate::fixed::fmul(t, r.direction.x as int) * sc == t * r.direction.x,
            oc.x == r.origin.x - s.center.x,
    ;
    assert(sc * (p.1 - s.center.y) == sc * oc.y + t * r.direction.y) by (nonlinear_arith)
        requires
            p.1 == r.origin.y + crate::fixed::fmul(t, r.direction.y as int),
            crate::fixed::fmul(t, r.direction.y as int) * sc == t * r.direction.y,
            oc.y == r.origin.y - s.center.y,
    ;
    assert(sc * (p.2 - s.center.z) == sc * oc.z + t * r.direction.z) by (nonlinear_arith)
        requires
            p.2 == r.origin.z + crate::fixed::fmul(t, r.direction.z as int),
            crate::fixed::fmul(t, r.direction.z as int) * sc == t * r.direction.z,
            oc.z == r.origin.z - s.center.z,
    ;
    lemma_point_square(sc, t, oc.x as int, r.direction.x as int);
    lemma_point_square(sc, t, oc.y as int, r.direction.y as int);
    lemma_point_square(sc, t, oc.z as int, r.direction.z as int);
    lemma_distrib3_local(sc * sc, oc.x * (oc.x as int), oc.y * (oc.y as int), oc.z * (oc.z as int));
    lemma_distrib3_local(
        2 * (sc * t),
        oc.x * (r.direction.x as int),
        oc.y * (r.direction.y as int),
        oc.z * (r.direction.z as int),
    );
    lemma_distrib3_local(
        t * t,
        r.direction.x * (r.direction.x as int),
        r.direction.y * (r.direction.y as int),
        r.direction.z * (r.direction.z as int),
    );
    assert((sc * sc) * dot_raw(oc, oc) + 2 * (sc * t) * dot_raw(oc, r.direction) + (t * t)
        * dot_raw(r.direction, r.direction) == (aq * (t * t) + 2 * (hq * sc) * t + cq * (sc * sc))
        + (sc * s.radius) * (sc * s.radius)) by (nonlinear_arith)
        requires
            aq == dot_raw(r.direction, r.direction),
            hq == dot_raw(oc, r.direction),
            cq == dot_raw(oc, oc) - s.radius * s.radius,
    ;
    lemma_at_ranges(r, t);
    let pv = v3(r.at_s(t));
    assert(pv.x == p.0 && pv.y == p.1 && pv.z == p.2);
    let rad = s.radius as int;
    let pcx = pv.x - s.center.x;
    let pcy = pv.y - s.center.y;
    let pcz = pv.z - s.center.z;
    assert((sc * pcx) * (sc * pcx) + (sc * pcy) * (sc * pcy) + (sc * pcz) * (sc * pcz) == (sc
        * rad) * (sc * rad));
    lemma_comp_within(sc, pcx, pcy, pcz, rad);
    let ox = fdiv(pcx, rad);
    let oy = fdiv(pcy, rad);
    let oz = fdiv(pcz, rad);
    crate::fixed::lemma_div_tz_mul_sq(pcx * SCALE, rad);
    crate::fixed::lemma_div_tz_mul_sq(pcy * SCALE, rad);
    crate::fixed::lemma_div_tz_mul_sq(pcz * SCALE, rad);
    assert((ox * rad) * (ox * rad) + (oy * rad) * (oy * rad) + (oz * rad) * (oz * rad) <= (sc
        * rad) * (sc * rad)) by (nonlinear_arith)
        requires
            (ox * rad) * (ox * rad) <= (pcx * sc) * (pcx * sc),
            (oy * rad) * (oy * rad) <= (pcy * sc) * (pcy * sc),
            (oz * rad) * (oz * rad) <= (pcz * sc) * (pcz * sc),
            (sc * pcx) * (sc * pcx) + (sc * pcy) * (sc * pcy) + (sc * pcz) * (sc * pcz) == (sc
                * rad) * (sc * rad),
    ;
    assert((ox * rad) * (ox * rad) == (ox * ox) * (rad * rad)) by (nonlinear_arith);
    assert((oy * rad) * (oy * rad) == (oy * oy) * (rad * rad)) by (nonlinear_arith);
    assert((oz * rad) * (oz * rad) == (oz * oz) * (rad * rad)) by (nonlinear_arith);
    assert((sc * rad) * (sc * rad) == (sc * sc) * (rad * rad)) by (nonlinear_arith);
    assert((ox * ox) * (rad * rad) + (oy * oy) * (rad * rad) + (oz * oz) * (rad * rad) == (ox * ox
        + oy * oy + oz * oz) * (rad * rad)) by (nonlinear_arith);
    assert(ox * ox + oy * oy + oz * oz <= sc * sc) by (nonlinear_arith)
        requires
            (ox * ox + oy * oy + oz * oz) * (rad * rad) <= (sc * sc) * (rad * rad),
            rad >= 100_000,
    ;
    assert(ox * ox <= sc * sc && oy * oy <= sc * sc && oz * oz <= sc * sc) by (nonlinear_arith)
        requires
            ox * ox + oy * oy + oz * oz <= sc * sc,
    ;
    assert(-sc <= ox <= sc && -sc <= oy <= sc && -sc <= oz <= sc) by (nonlinear_arith)
        requires
            ox * ox <= sc * sc,
            oy * oy <= sc * sc,
            oz * oz <= sc * sc,
            sc == 1_000_000,
    ;
    let outward = Vec3 { x: ox as i64, y: oy as i64, z: oz as i64 };
    assert(dot_raw(outward, outward) == ox * ox + oy * oy + oz * oz);
    assert(0 <= dot_raw(outward, outward)) by {
        crate::vec3::lemma_dot_raw_self_nonneg(outward);
    }
    crate::fixed::lemma_div_tz_bound(dot_raw(outward, outward), sc, sc);
    assert(lensq_s(outward) <= 3 * (SCALE as int) / 2);
    assert(hit_guard_s(s, pcx, pcy, pcz, outward));
    assert(sphere_hit_s(s, r, tmin, tmax) is Some);
}

/// Components of a scaled vector of known squared length stay within the
/// radius.
proof fn lemma_comp_within(sc: int, pcx: int, pcy: int, pcz: int, rad: int)
    by (nonlinear_arith)
    requires
        sc == 1_000_000,
        rad >= 0,
        (sc * pcx) * (sc * pcx) + (sc * pcy) * (sc * pcy) + (sc * pcz) * (sc * pcz) == (sc * rad)
            * (sc * rad),
    ensures
        -rad <= pcx <= rad,
        -rad <= pcy <= rad,
        -rad <= pcz <= rad,
{
}

/// The near root never exceeds the far root.
pub proof fn lemma_root_order(s: Sphere, r: Ray)
    requires
        qa_s(s, r) > 0,
        disc_s(s, r) >= 0,
    ensures
        root1_s(s, r) <= root2_s(s, r),
        sqrt_floor(disc_s(s, r)) >= 0,
{
    crate::vec3::lemma_sqrt_exists_for(disc_s(s, r));
    let dd = sqrt_floor(disc_s(s, r));
    let hq = qh_s(s, r);
    assert((-hq - dd) * SCALE <= (-hq + dd) * SCALE) by (nonlinear_arith)
        requires
            dd >= 0,
            SCALE == 1_000_000,
    ;
    crate::fixed::lemma_div_tz_ordered((-hq - dd) * SCALE, (-hq + dd) * SCALE, qa_s(s, r));
}

/// Narrowing the admissible range keeps exactly the hits that fall under
/// the new bound: the scan's shrinking upper bound loses nothing.
pub proof fn lemma_sphere_hit_shrink(s: Sphere, r: Ray, tmin: int, t1: int, t2: int)
    requires
        0 <= tmin,
        t1 <= t2 <= T_LIMIT,
    ensures
        sphere_hit_s(s, r, tmin, t1) == (match sphere_hit_s(s, r, tmin, t2) {
            Some(rec) => if (rec.t as int) < t1 {
                Some(rec)
            } else {
                None
            },
            None => None,
        }),
{
    crate::vec3::lemma_dot_raw_self_nonneg(r.direction);
    if qa_s(s, r) == 0 || disc_s(s, r) < 0 {
    } else {
        lemma_root_order(s, r);
        let r1 = root1_s(s, r);
        let r2 = root2_s(s, r);
        if tmin < r1 && r1 < t1 {
            assert(chosen_t_s(s, r, tmin, t1) == Some(r1));
            assert(chosen_t_s(s, r, tmin, t2) == Some(r1));
        } else if tmin < r2 && r2 < t1 {
            assert(r1 <= tmin);
            assert(chosen_t_s(s, r, tmin, t1) == Some(r2));
            assert(chosen_t_s(s, r, tmin, t2) == Some(r2));
        } else {
            assert(chosen_t_s(s, r, tmin, t1) is None);
            match chosen_t_s(s, r, tmin, t2) {
                Some(t) => {
                    assert(t == r1 || t == r2);
                    assert(t > tmin);
                    assert(t >= t1);
                },
                None => {},
            }
        }
    }
}

/// A reported hit's point is the parametric point at its parameter, and
/// the parameter lies strictly inside the queried range.
pub proof fn lemma_sphere_hit_form(s: Sphere, r: Ray, tmin: int, tmax: int)
    requires
        0 <= tmin,
        tmax <= T_LIMIT,
        sphere_hit_s(s, r, tmin, tmax) is Some,
    ensures
        ({
            let rec = sphere_hit_s(s, r, tmin, tmax)->Some_0;
            &&& tmin < rec.t < tmax
            &&& rec.point == v3(r.at_s(rec.t as int))
        }),
{
}

/// Multiplication distributes over a three-term sum.
proof fn lemma_distrib3_local(k: int, a: int, b: int, c2: int)
    by (nonlinear_arith)
    ensures
        k * a + k * b + k * c2 == k * (a + b + c2),
{
}

/// One component's scaled squared distance from the center, expanded.
proof fn lemma_point_square(sc: int, t: int, o: int, d: int)
    requires
        true,
    ensures
        (sc * o + t * d) * (sc * o + t * d) == (sc * sc) * (o * o) + 2 * (sc * t) * (o * d) + (t
            * t) * (d * d),
{
    let a = sc * o;
    let b = t * d;
    assert((a + b) * (a + b) == a * a + 2 * (a * b) + b * b) by (nonlinear_arith);
    assert(a * a == (sc * sc) * (o * o)) by (nonlinear_arith)
        requires
            a == sc * o,
    ;
    assert(2 * (a * b) == 2 * (sc * t) * (o * d)) by (nonlinear_arith)
        requires
            a == sc * o,
            b == t * d,
    ;
    assert(b * b == (t * t) * (d * d)) by (nonlinear_arith)
        requires
            b == t * d,
    ;
}

/// Ranges of the raw quadratic ingredients for a well-formed sphere and
/// ray: every product fits comfortably in `i128`.
proof fn lemma_quadratic_ranges(s: Sphere, r: Ray)
    requires
        wf_sphere(s),
        wf_ray(r),
    ensures
        bounded(oc_s(s, r), 3_250_000_000),
        -4_320_000_000_000_000_000 <= qa_s(s, r) <= 4_320_000_000_000_000_000,
        -11_700_000_000_000_000_000 <= qh_s(s, r) <= 11_700_000_000_000_000_000,
        -1_110_000_000_000_000_000 <= qc_s(s, r) <= 32_000_000_000_000_000_000,
        qa_s(s, r) >= 0,
        -137_000_000_000_000_000_000_000_000_000_000_000_000i128 as int <= qh_s(s, r) * qh_s(
            s,
            r,
        ) <= 137_000_000_000_000_000_000_000_000_000_000_000_000i128 as int,
{
    assert(bounded(oc_s(s, r), 3_250_000_000)) by {
        assert(oc_s(s, r).x == r.origin.x - s.center.x);
    }
    let oc = oc_s(s, r);
    assert(-4_320_000_000_000_000_000 <= qa_s(s, r) <= 4_320_000_000_000_000_000 && qa_s(s, r)
        >= 0) by (nonlinear_arith)
        requires
            bounded(r.direction, DIR_MAX as int),
            DIR_MAX == 1_200_000_000,
    ;
    assert(-11_700_000_000_000_000_000 <= qh_s(s, r) <= 11_700_000_000_000_000_000)
        by (nonlinear_arith)
        requires
            bounded(oc, 3_250_000_000),
            bounded(r.direction, DIR_MAX as int),
            qh_s(s, r) == dot_raw(oc, r.direction),
            DIR_MAX == 1_200_000_000,
    ;
    assert(-1_110_000_000_000_000_000 <= qc_s(s, r) <= 32_000_000_000_000_000_000)
        by (nonlinear_arith)
        requires
            bounded(oc, 3_250_000_000),
            qc_s(s, r) == dot_raw(oc, oc) - s.radius * s.radius,
            0 < s.radius <= 1_050_000_000,
    ;
    assert(-137_000_000_000_000_000_000_000_000_000_000_000_000i128 as int <= qh_s(s, r) * qh_s(
        s,
        r,
    ) <= 137_000_000_000_000_000_000_000_000_000_000_000_000i128 as int) by (nonlinear_arith)
        requires
            -11_700_000_000_000_000_000 <= qh_s(s, r) <= 11_700_000_000_000_000_000,
    ;
}

/// The discriminant stays inside `i128` and inside the square-root
/// routine's domain: when `c` is negative its magnitude is small (the
/// origin then lies inside the sphere), so the two summands never add up
/// past the limit.
proof fn lemma_disc_range(a: int, h: int, c: int)
    requires
        1 <= a <= 4_320_000_000_000_000_000,
        -11_700_000_000_000_000_000 <= h <= 11_700_000_000_000_000_000,
        -1_110_000_000_000_000_000 <= c <= 32_000_000_000_000_000_000,
    ensures
        0 <= h * h <= 137_000_000_000_000_000_000_000_000_000_000_000_000i128 as int,
        -139_000_000_000_000_000_000_000_000_000_000_000_000i128 as int <= a * c
            <= 139_000_000_000_000_000_000_000_000_000_000_000_000i128 as int,
        -145_000_000_000_000_000_000_000_000_000_000_000_000i128 as int <= h * h - a * c
            <= 145_000_000_000_000_000_000_000_000_000_000_000_000i128 as int,
        h * h - a * c <= ISQRT_MAX as int,
{
    assert(0 <= h * h <= 136_890_000_000_000_000_000_000_000_000_000_000_000i128 as int)
        by (nonlinear_arith)
        requires
            -11_700_000_000_000_000_000 <= h <= 11_700_000_000_000_000_000,
    ;
    assert(-5_000_000_000_000_000_000_000_000_000_000_000_000i128 as int <= a * c
        <= 139_000_000_000_000_000_000_000_000_000_000_000_000i128 as int) by (nonlinear_arith)
        requires
            1 <= a <= 4_320_000_000_000_000_000,
            -1_110_000_000_000_000_000 <= c <= 32_000_000_000_000_000_000,
    ;
}

/// The products and sums in the parametric point stay in range for hit
/// parameters under the horizon.
proof fn lemma_at_ranges(r: Ray, t: int)
    requires
        wf_ray(r),
        0 <= t <= T_LIMIT,
    ensures
        -(i64::MAX as int) * (SCALE as int) <= t * (r.direction.x as int) <= (i64::MAX as int) * (
        SCALE as int),
        -(i64::MAX as int) * (SCALE as int) <= t * (r.direction.y as int) <= (i64::MAX as int) * (
        SCALE as int),
        -(i64::MAX as int) * (SCALE as int) <= t * (r.direction.z as int) <= (i64::MAX as int) * (
        SCALE as int),
        i64::MIN <= r.at_s(t).0 <= i64::MAX,
        i64::MIN <= r.at_s(t).1 <= i64::MAX,
        i64::MIN <= r.at_s(t).2 <= i64::MAX,
        -1_210_000_000_000_000 <= crate::fixed::fmul(t, r.direction.x as int)
            <= 1_210_000_000_000_000,
        -1_210_000_000_000_000 <= crate::fixed::fmul(t, r.direction.y as int)
            <= 1_210_000_000_000_000,
        -1_210_000_000_000_000 <= crate::fixed::fmul(t, r.direction.z as int)
            <= 1_210_000_000_000_000,
{
    crate::fixed::lemma_fmul_in_range(
        t,
        r.direction.x as int,
        1_000_000_000_000,
        1_200_000_000,
        1_210_000_000_000_000,
    );
    crate::fixed::lemma_fmul_in_range(
        t,
        r.direction.y as int,
        1_000_000_000_000,
        1_200_000_000,
        1_210_000_000_000_000,
    );
    crate::fixed::lemma_fmul_in_range(
        t,
        r.direction.z as int,
        1_000_000_000_000,
        1_200_000_000,
        1_210_000_000_000_000,
    );
}

/// A vector whose fixed-point squared length is at most one and a half
/// units has every component within five quarters of a unit.
proof fn lemma_normal_comp_bound(n: Vec3)
    requires
        bounded(n, VMAX as int),
        0 <= lensq_s(n) <= 3 * (SCALE as int) / 2,
    ensures
        wf_normal(n),
{
    vstd::arithmetic::div_mod::lemma_fundamental_div_mod(dot_raw(n, n), SCALE as int);
    assert(dot_raw(n, n) >= n.x * n.x && dot_raw(n, n) >= n.y * n.y && dot_raw(n, n) >= n.z * n.z
        && dot_raw(n, n) >= 0) by (nonlinear_arith);
    assert(dot_raw(n, n) == (SCALE as int) * lensq_s(n) + dot_raw(n, n) % (SCALE as int));
    assert((SCALE as int) * lensq_s(n) <= 1_500_000_000_000) by (nonlinear_arith)
        requires
            lensq_s(n) <= 3 * (SCALE as int) / 2,
            SCALE == 1_000_000,
    ;
    assert(dot_raw(n, n) % (SCALE as int) < 1_000_000) by {
        vstd::arithmetic::div_mod::lemma_mod_bound(dot_raw(n, n), SCALE as int);
    }
    assert(-1_250_000 <= n.x <= 1_250_000) by (nonlinear_arith)
        requires
            n.x * n.x <= 1_500_001_000_000,
    ;
    assert(-1_250_000 <= n.y <= 1_250_000) by (nonlinear_arith)
        requires
            n.y * n.y <= 1_500_001_000_000,
    ;
    assert(-1_250_000 <= n.z <= 1_250_000) by (nonlinear_arith)
        requires
            n.z * n.z <= 1_500_001_000_000,
    ;
}

} // verus!
