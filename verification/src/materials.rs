//! Surface materials and their scattering models: diffuse (Lambertian),
//! reflective (metal) and refractive (dielectric).

use vstd::prelude::*;

verus! {

use crate::fixed::{
    div_tz, fdiv, fmul, fsqrt, fx_div, fx_mul, fx_sqrt, lemma_div_tz_mono, lemma_fdiv_in_range,
    lemma_fmul_in_range, lemma_sqrt_lt, SCALE,
};
use crate::hittable::{wf_normal, HitRecord, DIR_MAX, ORIGIN_MAX};
use crate::ray::Ray;
use crate::vec3::{
    bounded, dot_raw, dot_s, lemma_dot_in_range, lemma_dot_neg, lemma_lensq_nonneg, lensq_s,
    neg_s, unit_s, v3, Vec3,
};

#[derive(Clone, Copy, PartialEq, Eq, Structural)]
pub enum Material {
    Lambertian { albedo: Vec3 },
    Metal { albedo: Vec3, fuzz: i64 },
    Dielectric { index_of_refraction: i64 },
}

/// A color channel lies in the unit interval.
pub open spec fn unit_channel(c: int) -> bool {
    0 <= c <= SCALE
}

/// An albedo is a color with every channel in the unit interval.
pub open spec fn wf_albedo(a: Vec3) -> bool {
    unit_channel(a.x as int) && unit_channel(a.y as int) && unit_channel(a.z as int)
}

/// Well-formed material: unit-interval albedo and fuzz, refractive index
/// within a decade of one.
pub open spec fn wf_material(m: Material) -> bool {
    match m {
        Material::Lambertian { albedo } => wf_albedo(albedo),
        Material::Metal { albedo, fuzz } => wf_albedo(albedo) && 0 <= fuzz <= SCALE,
        Material::Dielectric { index_of_refraction } => SCALE / 10 <= index_of_refraction <= 10
            * SCALE,
    }
}

impl Default for Material {
    /// A black diffuse surface.
    fn default() -> (r: Self)
        ensures
            r == (Material::Lambertian { albedo: Vec3 { x: 0i64, y: 0i64, z: 0i64 } }),
    {
        Material::Lambertian { albedo: Vec3 { x: 0, y: 0, z: 0 } }
    }
}

/// An attenuation color paired with the outgoing scattered ray.
pub struct Scatter {
    pub attenuation: Vec3,
    pub scattered: crate::ray::Ray,
}

/// Components of `v` mirrored about the plane with normal `n`:
/// `v - 2 (v . n) n`.
pub open spec fn reflect_s(v: Vec3, n: Vec3) -> (int, int, int) {
    (
        v.x - fmul(2 * dot_s(v, n), n.x as int),
        v.y - fmul(2 * dot_s(v, n), n.y as int),
        v.z - fmul(2 * dot_s(v, n), n.z as int),
    )
}

/// Mirror reflection of `v` about `n`, for a roughly unit `v` and a
/// surface normal `n`.
pub fn reflect(v: Vec3, n: Vec3) -> (r: Vec3)
    requires
        bounded(v, 3 * SCALE as int),
        bounded(n, 5 * (SCALE as int) / 4),
    ensures
        r.x == reflect_s(v, n).0,
        r.y == reflect_s(v, n).1,
        r.z == reflect_s(v, n).2,
        bounded(r, 35 * SCALE as int),
{
    proof {
        lemma_dot_in_range(v, n, 3_000_000, 1_250_000, 12_000_000);
    }
    let d: i64 = v.dot(n);
    let k: i64 = 2 * d;
    proof {
        lemma_fmul_in_range(k as int, n.x as int, 24_000_000, 1_250_000, 30_000_000);
        lemma_fmul_in_range(k as int, n.y as int, 24_000_000, 1_250_000, 30_000_000);
        lemma_fmul_in_range(k as int, n.z as int, 24_000_000, 1_250_000, 30_000_000);
    }
    let m: Vec3 = n.scale(k);
    v.sub(m)
}

/// Components of the refraction of unit direction `uv` at a surface with
/// normal `n` and refraction ratio `etai` (Snell's law, fixed point).
pub open spec fn refract_s(uv: Vec3, n: Vec3, etai: int) -> (int, int, int) {
    let c0 = dot_s(neg_s(uv), n);
    let cos = if c0 > SCALE {
        SCALE as int
    } else {
        c0
    };
    let px = fmul(etai, uv.x + fmul(cos, n.x as int));
    let py = fmul(etai, uv.y + fmul(cos, n.y as int));
    let pz = fmul(etai, uv.z + fmul(cos, n.z as int));
    let lsq = div_tz(px * px + py * py + pz * pz, SCALE as int);
    let diff = SCALE - lsq;
    let par = -fsqrt(
        if diff >= 0 {
            diff
        } else {
            -diff
        },
    );
    (px + fmul(par, n.x as int), py + fmul(par, n.y as int), pz + fmul(par, n.z as int))
}

/// Refraction of the unit direction `uv` about the normal `n` with ratio
/// `etai`.
pub fn refract(uv: &Vec3, n: Vec3, etai: i64) -> (r: Vec3)
    requires
        bounded(*uv, 3 * SCALE as int),
        bounded(n, 5 * (SCALE as int) / 4),
        0 <= etai <= 10 * SCALE as int,
    ensures
        r.x == refract_s(*uv, n, etai as int).0,
        r.y == refract_s(*uv, n, etai as int).1,
        r.z == refract_s(*uv, n, etai as int).2,
        bounded(r, 600 * SCALE as int),
{
    let nuv: Vec3 = uv.neg();
    proof {
        crate::vec3::lemma_dot_neg(*uv, n);
        lemma_dot_in_range(nuv, n, 3_000_000, 1_250_000, 12_000_000);
    }
    let c0: i64 = nuv.dot(n);
    let cos: i64 = if c0 > SCALE {
        SCALE
    } else {
        c0
    };
    proof {
        lemma_fmul_in_range(cos as int, n.x as int, 12_000_000, 1_250_000, 15_000_000);
        lemma_fmul_in_range(cos as int, n.y as int, 12_000_000, 1_250_000, 15_000_000);
        lemma_fmul_in_range(cos as int, n.z as int, 12_000_000, 1_250_000, 15_000_000);
    }
    let inner: Vec3 = uv.add(n.scale(cos));
    proof {
        lemma_fmul_in_range(etai as int, inner.x as int, 10_000_000, 18_000_000, 180_000_000);
        lemma_fmul_in_range(etai as int, inner.y as int, 10_000_000, 18_000_000, 180_000_000);
        lemma_fmul_in_range(etai as int, inner.z as int, 10_000_000, 18_000_000, 180_000_000);
    }
    let out_perp: Vec3 = inner.scale(etai);
    proof {
        lemma_dot_in_range(out_perp, out_perp, 180_000_000, 180_000_000, 97_200_000_000);
    }
    let lsq: i64 = out_perp.length_squared();
    let diff: i64 = SCALE - lsq;
    let mag: i64 = if diff >= 0 {
        diff
    } else {
        -diff
    };
    let sq: i64 = fx_sqrt(mag);
    proof {
        lemma_sqrt_lt((mag as int) * (SCALE as int), sq as int, 320_000_000);
    }
    let par: i64 = -sq;
    proof {
        lemma_fmul_in_range(par as int, n.x as int, 320_000_000, 1_250_000, 400_000_000);
        lemma_fmul_in_range(par as int, n.y as int, 320_000_000, 1_250_000, 400_000_000);
        lemma_fmul_in_range(par as int, n.z as int, 320_000_000, 1_250_000, 400_000_000);
    }
    let parvec: Vec3 = n.scale(par);
    out_perp.add(parvec)
}

/// Schlick's approximation of the reflectance at incidence cosine `cosine`
/// for refraction ratio `ref_idx`.
pub open spec fn reflectance_s(cosine: int, ref_idx: int) -> int {
    let r0 = fdiv(SCALE - ref_idx, SCALE + ref_idx);
    let r0sq = fmul(r0, r0);
    let d = SCALE - cosine;
    let p2 = fmul(d, d);
    let p4 = fmul(p2, p2);
    let p5 = fmul(p4, d);
    r0sq + fmul(SCALE - r0sq, p5)
}

/// Schlick reflectance.
pub fn reflectance(cosine: i64, ref_idx: i64) -> (r: i64)
    requires
        -(12 * SCALE as int) <= cosine <= SCALE,
        SCALE / 10 <= ref_idx <= 10 * SCALE as int,
    ensures
        r == reflectance_s(cosine as int, ref_idx as int),
{
    proof {
        lemma_fdiv_in_range(SCALE - ref_idx, SCALE + ref_idx, 9_000_000, 1_000_000, 9_000_000);
    }
    let r0: i64 = fx_div(SCALE - ref_idx, SCALE + ref_idx);
    proof {
        lemma_fmul_in_range(r0 as int, r0 as int, 9_000_000, 9_000_000, 81_000_000);
    }
    let r0sq: i64 = fx_mul(r0, r0);
    let d: i64 = SCALE - cosine;
    proof {
        lemma_fmul_in_range(d as int, d as int, 13_000_000, 13_000_000, 169_000_000);
    }
    let p2: i64 = fx_mul(d, d);
    proof {
        lemma_fmul_in_range(p2 as int, p2 as int, 169_000_000, 169_000_000, 28_561_000_000);
    }
    let p4: i64 = fx_mul(p2, p2);
    proof {
        lemma_fmul_in_range(p4 as int, d as int, 28_561_000_000, 13_000_000, 371_293_000_000);
    }
    let p5: i64 = fx_mul(p4, d);
    proof {
        lemma_fmul_in_range(
            (SCALE - r0sq) as int,
            p5 as int,
            82_000_000,
            371_293_000_000,
            30_446_026_000_000,
        );
    }
    let tail: i64 = fx_mul(SCALE - r0sq, p5);
    r0sq + tail
}

/// Lambertian scatter direction: the surface normal plus a random unit
/// vector, falling back to the bare normal when the sum degenerates to
/// zero.
pub open spec fn lam_dir_s(normal: Vec3, ru: Vec3) -> (int, int, int) {
    let dx = normal.x + ru.x;
    let dy = normal.y + ru.y;
    let dz = normal.z + ru.z;
    if dx == 0 && dy == 0 && dz == 0 {
        (normal.x as int, normal.y as int, normal.z as int)
    } else {
        (dx, dy, dz)
    }
}

/// Metal scatter direction: the normalized mirror reflection of the unit
/// incoming direction, perturbed by `fuzz` times a random unit vector.
pub open spec fn metal_dir_s(dir: Vec3, normal: Vec3, fuzz: int, ru: Vec3) -> (int, int, int) {
    let refl = v3(reflect_s(v3(unit_s(dir)), normal));
    let u = v3(unit_s(refl));
    (u.x + fmul(fuzz, ru.x as int), u.y + fmul(fuzz, ru.y as int), u.z + fmul(fuzz, ru.z as int))
}

/// Dielectric scatter direction: total internal reflection forces a
/// mirror; otherwise Schlick reflectance against the uniform draw chooses
/// between reflection and refraction.
pub open spec fn dielectric_dir_s(dir: Vec3, normal: Vec3, front_face: bool, ir: int, draw: int)
    -> (int, int, int) {
    let ri = if front_face {
        fdiv(SCALE as int, ir)
    } else {
        ir
    };
    let ud = v3(unit_s(dir));
    let c0 = dot_s(neg_s(ud), normal);
    let cos = if c0 > SCALE {
        SCALE as int
    } else {
        c0
    };
    let sin2 = SCALE - fmul(cos, cos);
    let sin = fsqrt(
        if sin2 >= 0 {
            sin2
        } else {
            0
        },
    );
    let cannot = sin2 < 0 || fmul(ri, sin) > SCALE;
    if cannot || reflectance_s(cos, ri) > draw {
        reflect_s(ud, normal)
    } else {
        refract_s(ud, normal, ri)
    }
}

/// With zero fuzz a metal surface is a perfect mirror: the scattered
/// direction is exactly the normalized mirror reflection of the incoming
/// direction, whatever random unit vector was drawn.
pub proof fn lemma_metal_mirror(dir: Vec3, normal: Vec3, ru: Vec3)
    ensures
        ({
            let u = v3(unit_s(v3(reflect_s(v3(unit_s(dir)), normal))));
            metal_dir_s(dir, normal, 0, ru) == (u.x as int, u.y as int, u.z as int)
        }),
{
    crate::fixed::lemma_fmul_zero(ru.x as int);
    crate::fixed::lemma_fmul_zero(ru.y as int);
    crate::fixed::lemma_fmul_zero(ru.z as int);
}

/// A refraction ratio of one bends nothing: when the incoming direction
/// and the normal are exactly unit length and every intermediate product
/// divides evenly by the scale, the refracted direction is exactly the
/// incoming direction. (Away from such inputs the identity holds only up
/// to fixed-point rounding.)
#[verifier::spinoff_prover]
pub proof fn lemma_refract_identity(uv: Vec3, n: Vec3)
    requires
        bounded(uv, SCALE as int),
        bounded(n, SCALE as int),
        dot_raw(uv, uv) == (SCALE as int) * (SCALE as int),
        dot_raw(n, n) == (SCALE as int) * (SCALE as int),
        dot_raw(uv, n) % (SCALE as int) == 0,
        0 <= -dot_s(uv, n) <= SCALE,
        (-dot_s(uv, n)) * (n.x as int) % (SCALE as int) == 0,
        (-dot_s(uv, n)) * (n.y as int) % (SCALE as int) == 0,
        (-dot_s(uv, n)) * (n.z as int) % (SCALE as int) == 0,
        (-dot_s(uv, n)) * (-dot_s(uv, n)) % (SCALE as int) == 0,
    ensures
        refract_s(uv, n, SCALE as int) == (uv.x as int, uv.y as int, uv.z as int),
{
    let s = SCALE as int;
    crate::vec3::lemma_dot_neg(uv, n);
    let c = -dot_s(uv, n);
    let d = dot_raw(uv, n);
    lemma_exact_div(d);
    assert(-(s * c) == d) by (nonlinear_arith)
        requires
            div_tz(d, s) * s == d,
            c == -div_tz(d, s),
    ;
    let ex = fmul(c, n.x as int);
    let ey = fmul(c, n.y as int);
    let ez = fmul(c, n.z as int);
    lemma_exact_div(c * (n.x as int));
    lemma_exact_div(c * (n.y as int));
    lemma_exact_div(c * (n.z as int));
    crate::fixed::lemma_fmul_unit(uv.x + ex);
    crate::fixed::lemma_fmul_unit(uv.y + ey);
    crate::fixed::lemma_fmul_unit(uv.z + ez);
    let px = uv.x + ex;
    let py = uv.y + ey;
    let pz = uv.z + ez;
    lemma_comp_square(s, c, uv.x as int, n.x as int, ex);
    lemma_comp_square(s, c, uv.y as int, n.y as int, ey);
    lemma_comp_square(s, c, uv.z as int, n.z as int, ez);
    let psum = px * px + py * py + pz * pz;
    lemma_distrib3(s * s, px * px, py * py, pz * pz);
    lemma_distrib3(s * s, uv.x * uv.x, uv.y * uv.y, uv.z * uv.z);
    lemma_distrib3(2 * (s * c), uv.x * n.x, uv.y * n.y, uv.z * n.z);
    lemma_distrib3(c * c, n.x * n.x, n.y * n.y, n.z * n.z);
    assert(s * s * (s * s) + 2 * (s * c) * (-(s * c)) + (c * c) * (s * s) == s * s * (s * s - c
        * c)) by (nonlinear_arith);
    assert(psum == s * s - c * c) by (nonlinear_arith)
        requires
            s * s * psum == s * s * (s * s - c * c),
            s == 1_000_000,
    ;
    let cc = c * c;
    lemma_exact_div(cc);
    assert((s * s - cc) == (s - div_tz(cc, s)) * s) by (nonlinear_arith)
        requires
            div_tz(cc, s) * s == cc,
            s == 1_000_000,
    ;
    crate::fixed::lemma_div_tz_exact(s - div_tz(cc, s), s);
    let lsq = div_tz(s * s - cc, s);
    assert(lsq == s - div_tz(cc, s));
    let diff = s - lsq;
    assert(diff == div_tz(cc, s));
    assert(diff * s == cc);
    assert(0 <= diff) by (nonlinear_arith)
        requires
            diff * s == c * c,
            s == 1_000_000,
    ;
    assert(fsqrt(diff) == c) by {
        crate::fixed::lemma_sqrt_of_square(c);
        assert(diff * s == c * c);
    }
    crate::fixed::lemma_fmul_neg(c, n.x as int);
    crate::fixed::lemma_fmul_neg(c, n.y as int);
    crate::fixed::lemma_fmul_neg(c, n.z as int);
}

/// One component's contribution to the squared length of the refraction's
/// perpendicular part, scaled to clear the truncating divisions.
proof fn lemma_comp_square(s: int, c: int, u: int, nn: int, e: int)
    requires
        e * s == c * nn,
    ensures
        s * s * ((u + e) * (u + e)) == s * s * (u * u) + 2 * (s * c) * (u * nn) + (c * c) * (nn
            * nn),
{
    let t = u + e;
    let a = s * u;
    let b = c * nn;
    assert(s * t == a + b) by (nonlinear_arith)
        requires
            t == u + e,
            e * s == c * nn,
            a == s * u,
            b == c * nn,
    ;
    assert((s * t) * (s * t) == s * s * (t * t)) by (nonlinear_arith);
    assert((a + b) * (a + b) == a * a + 2 * (a * b) + b * b) by (nonlinear_arith);
    assert(a * a == s * s * (u * u)) by (nonlinear_arith)
        requires
            a == s * u,
    ;
    assert(2 * (a * b) == 2 * (s * c) * (u * nn)) by (nonlinear_arith)
        requires
            a == s * u,
            b == c * nn,
    ;
    assert(b * b == (c * c) * (nn * nn)) by (nonlinear_arith)
        requires
            b == c * nn,
    ;
}

/// Multiplication distributes over a three-term sum.
proof fn lemma_distrib3(k: int, a: int, b: int, c2: int)
    by (nonlinear_arith)
    ensures
        k * a + k * b + k * c2 == k * (a + b + c2),
{
}

/// Truncating division by the scale is exact, and inverts multiplication,
/// on even multiples of the scale.
proof fn lemma_exact_div(m: int)
    requires
        m % (SCALE as int) == 0,
    ensures
        div_tz(m, SCALE as int) * (SCALE as int) == m,
{
    let s = SCALE as int;
    vstd::arithmetic::div_mod::lemma_fundamental_div_mod(m, s);
    assert((m / s) * s == m) by (nonlinear_arith)
        requires
            m == s * (m / s) + m % s,
            m % s == 0,
    ;
    crate::fixed::lemma_div_tz_exact(m / s, s);
    assert(div_tz(m, s) == m / s);
    assert(div_tz(m, s) * s == m) by (nonlinear_arith)
        requires
            div_tz(m, s) == m / s,
            (m / s) * s == m,
    ;
}

/// Everything `scatter` decides once the random unit vector `ru` and the
/// uniform draw are fixed: the attenuation and the scattered direction, or
/// absorption.
pub open spec fn scatter_s(m: Material, ray: Ray, rec: HitRecord, ru: Vec3, draw: int) -> Option<
    (Vec3, (int, int, int)),
> {
    match m {
        Material::Lambertian { albedo } => Some((albedo, lam_dir_s(rec.normal, ru))),
        Material::Metal { albedo, fuzz } => {
            if lensq_s(ray.direction) < 1 {
                None
            } else {
                let refl = v3(reflect_s(v3(unit_s(ray.direction)), rec.normal));
                if lensq_s(refl) < 1 {
                    None
                } else {
                    let d = metal_dir_s(ray.direction, rec.normal, fuzz as int, ru);
                    if dot_s(v3(d), rec.normal) > 0 {
                        Some((albedo, d))
                    } else {
                        None
                    }
                }
            }
        },
        Material::Dielectric { index_of_refraction } => {
            if lensq_s(ray.direction) < 1 {
                None
            } else {
                Some(
                    (
                        Vec3 { x: SCALE, y: SCALE, z: SCALE },
                        dielectric_dir_s(
                            ray.direction,
                            rec.normal,
                            rec.front_face,
                            index_of_refraction as int,
                            draw,
                        ),
                    ),
                )
            }
        },
    }
}

/// How an executable scatter result relates to the scatter model.
pub open spec fn scatter_matches(
    m: Material,
    ray: Ray,
    rec: HitRecord,
    ru: Vec3,
    draw: int,
    r: Option<Scatter>,
) -> bool {
    match scatter_s(m, ray, rec, ru, draw) {
        None => r is None,
        Some(p) => {
            &&& r is Some
            &&& r->Some_0.attenuation == p.0
            &&& r->Some_0.scattered.origin == rec.point
            &&& r->Some_0.scattered.direction.x == p.1.0
            &&& r->Some_0.scattered.direction.y == p.1.1
            &&& r->Some_0.scattered.direction.z == p.1.2
        },
    }
}

/// A scatter result the integrator accepts: unit-interval attenuation, the
/// hit point as origin, and a direction within the ray bound.
pub open spec fn wf_scatter(rec: HitRecord, r: Option<Scatter>) -> bool {
    r is Some ==> {
        &&& wf_albedo(r->Some_0.attenuation)
        &&& r->Some_0.scattered.origin == rec.point
        &&& bounded(r->Some_0.scattered.direction, 600 * SCALE as int)
    }
}

impl Material {
    /// Scatter with the stochastic inputs fixed: `rand_unit` is the drawn
    /// unit vector and `draw` the uniform fraction that the dielectric
    /// compares against Schlick reflectance. Deterministic, with an exact
    /// contract.
    pub fn scatter_with(&self, ray: &Ray, rec: &HitRecord, rand_unit: Vec3, draw: i64) -> (r:
        Option<Scatter>)
        requires
            wf_material(*self),
            bounded(ray.direction, DIR_MAX as int),
            wf_normal(rec.normal),
            bounded(rec.point, ORIGIN_MAX as int),
            bounded(rand_unit, 3 * SCALE as int),
            0 <= draw <= SCALE,
        ensures
            scatter_matches(*self, *ray, *rec, rand_unit, draw as int, r),
            wf_scatter(*rec, r),
    {
        match self {
            Material::Lambertian { albedo } => {
                let mut dir: Vec3 = rec.normal.add(rand_unit);
                if dir.near_zero() {
                    dir = rec.normal;
                }
                Some(Scatter { attenuation: *albedo, scattered: Ray::new(rec.point, dir) })
            },
            Material::Metal { albedo, fuzz } => {
                proof {
                    lemma_lensq_nonneg(ray.direction);
                }
                if ray.direction.length_squared() < 1 {
                    return None;
                }
                let ud: Vec3 = ray.direction.unit_vector();
                let refl: Vec3 = reflect(ud, rec.normal);
                proof {
                    assert(ud == v3(unit_s(ray.direction)));
                    assert(refl == v3(reflect_s(v3(unit_s(ray.direction)), rec.normal)));
                    lemma_lensq_nonneg(refl);
                }
                if refl.length_squared() < 1 {
                    return None;
                }
                let un: Vec3 = refl.unit_vector();
                proof {
                    lemma_fmul_in_range(*fuzz as int, rand_unit.x as int, 1_000_000, 3_000_000, 3_000_000);
                    lemma_fmul_in_range(*fuzz as int, rand_unit.y as int, 1_000_000, 3_000_000, 3_000_000);
                    lemma_fmul_in_range(*fuzz as int, rand_unit.z as int, 1_000_000, 3_000_000, 3_000_000);
                }
                let fuzzed: Vec3 = un.add(rand_unit.scale(*fuzz));
                proof {
                    lemma_dot_in_range(fuzzed, rec.normal, 6_000_000, 1_250_000, 23_000_000);
                }
                let sd: i64 = fuzzed.dot(rec.normal);
                if sd > 0 {
                    Some(Scatter { attenuation: *albedo, scattered: Ray::new(rec.point, fuzzed) })
                } else {
                    None
                }
            },
            Material::Dielectric { index_of_refraction } => {
                proof {
                    lemma_lensq_nonneg(ray.direction);
                }
                if ray.direction.length_squared() < 1 {
                    return None;
                }
                let ud: Vec3 = ray.direction.unit_vector();
                let ri: i64 = if rec.front_face {
                    proof {
                        lemma_fdiv_in_range(
                            SCALE as int,
                            *index_of_refraction as int,
                            1_000_000,
                            100_000,
                            10_000_000,
                        );
                        vstd::arithmetic::div_mod::lemma_div_is_ordered_by_denominator(
                            1_000_000_000_000,
                            *index_of_refraction as int,
                            10_000_000,
                        );
                    }
                    fx_div(SCALE, *index_of_refraction)
                } else {
                    *index_of_refraction
                };
                let nud: Vec3 = ud.neg();
                proof {
                    lemma_dot_neg(ud, rec.normal);
                    lemma_dot_in_range(nud, rec.normal, 3_000_000, 1_250_000, 12_000_000);
                }
                let c0: i64 = nud.dot(rec.normal);
                let cos: i64 = if c0 > SCALE {
                    SCALE
                } else {
                    c0
                };
                proof {
                    lemma_fmul_in_range(cos as int, cos as int, 12_000_000, 12_000_000, 144_000_000);
                }
                let cos2: i64 = fx_mul(cos, cos);
                let sin2: i64 = SCALE - cos2;
                let sin: i64 = fx_sqrt(
                    if sin2 >= 0 {
                        sin2
                    } else {
                        0
                    },
                );
                proof {
                    lemma_sqrt_lt(
                        (if sin2 >= 0 { sin2 as int } else { 0 }) * (SCALE as int),
                        sin as int,
                        13_000_000,
                    );
                    lemma_fmul_in_range(ri as int, sin as int, 10_000_000, 13_000_000, 130_000_000);
                }
                let risin: i64 = fx_mul(ri, sin);
                let cannot_refract: bool = sin2 < 0 || risin > SCALE;
                let dirv: Vec3 = if cannot_refract || reflectance(cos, ri) > draw {
                    reflect(ud, rec.normal)
                } else {
                    refract(&ud, rec.normal, ri)
                };
                Some(
                    Scatter {
                        attenuation: Vec3 { x: SCALE, y: SCALE, z: SCALE },
                        scattered: Ray::new(rec.point, dirv),
                    },
                )
            },
        }
    }

    /// Scatter with a fresh random unit vector and uniform draw: whatever
    /// the generator returned, the result matches the scatter model for
    /// some admissible pair of stochastic inputs.
    pub fn scatter(&self, ray: &Ray, rec: &HitRecord) -> (r: Option<Scatter>)
        requires
            wf_material(*self),
            bounded(ray.direction, DIR_MAX as int),
            wf_normal(rec.normal),
            bounded(rec.point, ORIGIN_MAX as int),
        ensures
            exists|ru: Vec3, draw: int|
                {
                    &&& bounded(ru, 3 * SCALE as int)
                    &&& 0 <= draw <= SCALE
                    &&& scatter_matches(*self, *ray, *rec, ru, draw, r)
                },
            wf_scatter(*rec, r),
    {
        let ru: Vec3 = crate::utils::random_unit_vector();
        let draw: i64 = crate::utils::random_fraction();
        let r = self.scatter_with(ray, rec, ru, draw);
        proof {
            assert(bounded(ru, 3 * SCALE as int) && 0 <= draw as int <= SCALE && scatter_matches(
                *self,
                *ray,
                *rec,
                ru,
                draw as int,
                r,
            ));
        }
        r
    }
}

} // verus!
