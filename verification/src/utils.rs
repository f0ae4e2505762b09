//! Angle conversion and the stochastic sampling helpers. The only outside
//! call of the library — drawing a uniform random number — lives here.

use vstd::prelude::*;

verus! {

use crate::fixed::{div_tz, lemma_div_tz_bound, SCALE};
use crate::vec3::{bounded, dot_s, lensq_s, Vec3};

/// The circle constant, in fixed-point millionths.
pub const PI_FIXED: i64 = 3_141_593;

/// Degrees to radians: `deg * pi / 180`, rounded toward zero.
pub fn deg2rad(deg: i64) -> (r: i64)
    requires
        -360_000_000 <= deg <= 360_000_000,
    ensures
        r == div_tz((deg as int) * (PI_FIXED as int), 180 * (SCALE as int)),
{
    proof {
        assert((deg as i128) * (PI_FIXED as i128) == (deg as int) * (PI_FIXED as int)
            && -2_000_000_000_000_000i128 <= (deg as i128) * (PI_FIXED as i128)
            <= 2_000_000_000_000_000i128) by (nonlinear_arith)
            requires
                -360_000_000 <= deg <= 360_000_000,
                PI_FIXED == 3_141_593,
        ;
        lemma_div_tz_bound((deg as int) * (PI_FIXED as int), 180 * (SCALE as int), 20_000_000);
    }
    let p: i128 = (deg as i128) * (PI_FIXED as i128);
    let q: i128 = crate::fixed::div_q(p, 180 * (SCALE as i128));
    q as i64
}

/// Relies on rand::random_range: a uniform draw from the inclusive integer
/// range handed to it (it panics only if the platform's entropy source
/// fails at first use).
#[verifier::external_body]
fn sample_raw() -> (r: i64)
    ensures
        0 <= r <= 1_000_000,
{
    rand::random_range(0i64..=1_000_000)
}

/// A uniform random fixed-point fraction in `[0, 1]`.
pub fn random_fraction() -> (r: i64)
    ensures
        0 <= r <= SCALE,
{
    sample_raw()
}

/// A uniform random fixed-point value in `[-1, 1]`.
fn random_signed_unit() -> (r: i64)
    ensures
        -SCALE <= r <= SCALE,
{
    2 * sample_raw() - SCALE
}

/// A random point strictly inside the unit sphere (rejection sampling with
/// a deterministic fallback after a bounded number of draws).
pub fn random_in_unit_sphere() -> (r: Vec3)
    ensures
        bounded(r, SCALE as int),
        0 <= lensq_s(r) < SCALE,
{
    let mut tries: u32 = 0;
    while tries < 64
        invariant
            tries <= 64,
        decreases 64 - tries,
    {
        let v = Vec3 { x: random_signed_unit(), y: random_signed_unit(), z: random_signed_unit() };
        proof {
            crate::vec3::lemma_lensq_nonneg(v);
        }
        if v.length_squared() < SCALE {
            return v;
        }
        tries = tries + 1;
    }
    let f = Vec3 { x: SCALE / 2, y: 0, z: 0 };
    proof {
        crate::vec3::lemma_lensq_nonneg(f);
        assert(crate::vec3::dot_raw(f, f) == 250_000_000_000) by (nonlinear_arith)
            requires
                f.x == 500_000,
                f.y == 0,
                f.z == 0,
        ;
        crate::fixed::lemma_div_tz_bound(crate::vec3::dot_raw(f, f), SCALE as int, 250_000);
    }
    f
}

/// A random unit-length vector: the normalization of a draw from inside
/// the unit sphere (a fixed axis if the draw degenerates to zero).
pub fn random_unit_vector() -> (r: Vec3)
    ensures
        bounded(r, 3 * (SCALE as int) / 2),
        bounded(r, 3 * SCALE as int),
        exists|v: Vec3|
            #![auto]
            {
                &&& bounded(v, SCALE as int)
                &&& 1 <= lensq_s(v) <= SCALE
                &&& r == crate::vec3::v3(crate::vec3::unit_s(v))
            },
{
    let v = random_in_unit_sphere();
    if v.length_squared() >= 1 {
        let r = v.unit_vector();
        proof {
            assert(bounded(v, SCALE as int) && 1 <= lensq_s(v) <= SCALE && r == crate::vec3::v3(
                crate::vec3::unit_s(v),
            ));
        }
        r
    } else {
        proof {
            crate::vec3::lemma_unit_axis_z();
            let a = Vec3 { x: 0i64, y: 0i64, z: SCALE };
            assert(bounded(a, SCALE as int) && 1 <= lensq_s(a) <= SCALE && (Vec3 {
                x: 0i64,
                y: 0i64,
                z: SCALE,
            }) == crate::vec3::v3(crate::vec3::unit_s(a)));
        }
        Vec3 { x: 0, y: 0, z: SCALE }
    }
}

/// A random unit vector lying in the hemisphere around `normal`: the
/// normalization of a unit-sphere draw, negated whenever it opposes the
/// normal, so the result never points against it.
pub fn random_on_hemisphere(normal: &Vec3) -> (r: Vec3)
    requires
        bounded(*normal, 2 * SCALE as int),
    ensures
        bounded(r, 3 * (SCALE as int) / 2),
        bounded(r, 3 * SCALE as int),
        dot_s(r, *normal) >= 0,
        exists|v: Vec3|
            #![auto]
            {
                &&& bounded(v, SCALE as int)
                &&& 1 <= lensq_s(v) <= SCALE
                &&& (r == crate::vec3::v3(crate::vec3::unit_s(v)) || r == crate::vec3::neg_s(
                    crate::vec3::v3(crate::vec3::unit_s(v)),
                ))
            },
{
    let on_unit_sphere = random_unit_vector();
    proof {
        crate::vec3::lemma_dot_in_range(
            on_unit_sphere,
            *normal,
            3_000_000,
            2_000_000,
            18_000_000,
        );
    }
    let d: i64 = on_unit_sphere.dot(*normal);
    if d > 0 {
        on_unit_sphere
    } else {
        proof {
            crate::vec3::lemma_dot_neg(on_unit_sphere, *normal);
        }
        let r = on_unit_sphere.neg();
        proof {
            let v = choose|v: Vec3|
                #![auto]
                {
                    &&& bounded(v, SCALE as int)
                    &&& 1 <= lensq_s(v) <= SCALE
                    &&& on_unit_sphere == crate::vec3::v3(crate::vec3::unit_s(v))
                };
            assert(r == crate::vec3::neg_s(crate::vec3::v3(crate::vec3::unit_s(v))));
        }
        r
    }
}

/// A random point strictly inside the unit disk in the `z = 0` plane.
pub fn random_in_unit_disk() -> (r: Vec3)
    ensures
        bounded(r, SCALE as int),
        0 <= lensq_s(r) < SCALE,
        r.z == 0,
{
    let mut tries: u32 = 0;
    while tries < 64
        invariant
            tries <= 64,
        decreases 64 - tries,
    {
        let v = Vec3 { x: random_signed_unit(), y: random_signed_unit(), z: 0 };
        proof {
            crate::vec3::lemma_lensq_nonneg(v);
        }
        if v.length_squared() < SCALE {
            return v;
        }
        tries = tries + 1;
    }
    let f = Vec3 { x: SCALE / 2, y: 0, z: 0 };
    proof {
        crate::vec3::lemma_lensq_nonneg(f);
        assert(crate::vec3::dot_raw(f, f) == 250_000_000_000) by (nonlinear_arith)
            requires
                f.x == 500_000,
                f.y == 0,
                f.z == 0,
        ;
        crate::fixed::lemma_div_tz_bound(crate::vec3::dot_raw(f, f), SCALE as int, 250_000);
    }
    f
}

} // verus!
