//! Rays: an origin, a direction, and the parametric point along them;
//! also the recursive color integrator (`Ray::color`).

use vstd::prelude::*;

verus! {

use crate::fixed::{fmul, lemma_fmul_unit_interval, SCALE};
use crate::vec3::{bounded, lensq_s, unit_s, v3, Vec3};

#[derive(Clone, Copy, PartialEq, Eq, Structural)]
pub struct Ray {
    pub origin: Vec3,
    pub direction: Vec3,
}

impl Ray {
    /// The ray's starting point, for specifications.
    pub open spec fn origin_s(self) -> Vec3 {
        self.origin
    }

    /// The ray's direction, for specifications.
    pub open spec fn direction_s(self) -> Vec3 {
        self.direction
    }

    /// Components of the point at parameter `t` along the ray.
    pub open spec fn at_s(self, t: int) -> (int, int, int) {
        (
            self.origin.x + fmul(t, self.direction.x as int),
            self.origin.y + fmul(t, self.direction.y as int),
            self.origin.z + fmul(t, self.direction.z as int),
        )
    }

    pub fn new(origin: Vec3, direction: Vec3) -> (r: Ray)
        ensures
            r.origin_s() == origin,
            r.direction_s() == direction,
    {
        Ray { origin, direction }
    }

    pub fn origin(&self) -> (r: &Vec3)
        ensures
            *r == self.origin_s(),
    {
        &self.origin
    }

    pub fn direction(&self) -> (r: &Vec3)
        ensures
            *r == self.direction_s(),
    {
        &self.direction
    }

    /// The point at parameter `t`: `origin + t * direction`.
    pub fn at(&self, t: i64) -> (r: Vec3)
        requires
            -(i64::MAX as int) * (SCALE as int) <= (t as int) * (self.direction_s().x as int) <= (
            i64::MAX as int) * (SCALE as int),
            -(i64::MAX as int) * (SCALE as int) <= (t as int) * (self.direction_s().y as int) <= (
            i64::MAX as int) * (SCALE as int),
            -(i64::MAX as int) * (SCALE as int) <= (t as int) * (self.direction_s().z as int) <= (
            i64::MAX as int) * (SCALE as int),
            i64::MIN <= self.at_s(t as int).0 <= i64::MAX,
            i64::MIN <= self.at_s(t as int).1 <= i64::MAX,
            i64::MIN <= self.at_s(t as int).2 <= i64::MAX,
        ensures
            r.x == self.at_s(t as int).0,
            r.y == self.at_s(t as int).1,
            r.z == self.at_s(t as int).2,
    {
        let d: Vec3 = self.direction.scale(t);
        self.origin.add(d)
    }

    /// Radiance along the ray: black at the recursion floor, the sky
    /// gradient on a miss, and attenuated recursive radiance on a hit.
    pub fn color(&self, world: &Vec<crate::shapes::Sphere>, depth: u32) -> (r: Vec3)
        requires
            crate::hittable::wf_ray(*self),
            forall|i: int|
                0 <= i < world@.len() ==> crate::shapes::wf_sphere(#[trigger] world@[i]),
        ensures
            unit_color(r),
            depth == 0 ==> r == (Vec3 { x: 0i64, y: 0i64, z: 0i64 }),
            depth > 0 && crate::hittable::scene_hit_s(
                world@,
                *self,
                1000,
                crate::hittable::T_LIMIT as int,
            ) is None ==> r == v3(background_s(*self)),
            color_post(world@, *self, depth as int, r),
        decreases depth,
    {
        if depth == 0 {
            return Vec3 { x: 0, y: 0, z: 0 };
        }
        let hit = crate::hittable::hit(world, self, 1000, crate::hittable::T_LIMIT);
        match hit {
            Some(rec) => {
                let sc = rec.material.scatter(self, &rec);
                proof {
                    let (ru0, draw0) = choose|ru: Vec3, draw: int|
                        {
                            &&& bounded(ru, 3 * SCALE as int)
                            &&& 0 <= draw <= SCALE
                            &&& crate::materials::scatter_matches(
                                rec.material,
                                *self,
                                rec,
                                ru,
                                draw,
                                sc,
                            )
                        };
                }
                match sc {
                    Some(s) => {
                        let col: Vec3 = s.scattered.color(world, depth - 1);
                        proof {
                            lemma_fmul_unit_interval(s.attenuation.x as int, col.x as int);
                            lemma_fmul_unit_interval(s.attenuation.y as int, col.y as int);
                            lemma_fmul_unit_interval(s.attenuation.z as int, col.z as int);
                            assert((s.attenuation.x as int) * (col.x as int) <= (i64::MAX as int)
                                * (SCALE as int) && -((i64::MAX as int) * (SCALE as int)) <= (
                            s.attenuation.x as int) * (col.x as int)) by (nonlinear_arith)
                                requires
                                    0 <= s.attenuation.x <= 1_000_000,
                                    0 <= col.x <= 1_000_000,
                            ;
                            assert((s.attenuation.y as int) * (col.y as int) <= (i64::MAX as int)
                                * (SCALE as int) && -((i64::MAX as int) * (SCALE as int)) <= (
                            s.attenuation.y as int) * (col.y as int)) by (nonlinear_arith)
                                requires
                                    0 <= s.attenuation.y <= 1_000_000,
                                    0 <= col.y <= 1_000_000,
                            ;
                            assert((s.attenuation.z as int) * (col.z as int) <= (i64::MAX as int)
                                * (SCALE as int) && -((i64::MAX as int) * (SCALE as int)) <= (
                            s.attenuation.z as int) * (col.z as int)) by (nonlinear_arith)
                                requires
                                    0 <= s.attenuation.z <= 1_000_000,
                                    0 <= col.z <= 1_000_000,
                            ;
                        }
                        let out: Vec3 = s.attenuation.mul_comp(col);
                        proof {
                            lemma_color_post_hit(world@, *self, depth as int, rec, sc, col, out);
                        }
                        out
                    },
                    None => {
                        proof {
                            lemma_color_post_hit(
                                world@,
                                *self,
                                depth as int,
                                rec,
                                sc,
                                Vec3 { x: 0i64, y: 0i64, z: 0i64 },
                                Vec3 { x: 0i64, y: 0i64, z: 0i64 },
                            );
                        }
                        Vec3 { x: 0, y: 0, z: 0 }
                    },
                }
            },
            None => self.background(),
        }
    }

    /// The sky: a vertical gradient from white at the horizon's foot to a
    /// light blue straight up, driven by the unit direction's height.
    pub fn background(&self) -> (r: Vec3)
        requires
            bounded(self.direction, crate::hittable::DIR_MAX as int),
        ensures
            r == v3(background_s(*self)),
            unit_color(r),
    {
        proof {
            crate::vec3::lemma_lensq_nonneg(self.direction);
        }
        if self.direction.length_squared() < 1 {
            return Vec3 { x: 0, y: 0, z: 0 };
        }
        let u: Vec3 = self.direction.unit_vector();
        proof {
            lemma_fmul_unit_range(u.y as int);
        }
        let a0: i64 = crate::fixed::fx_mul(500_000, u.y + SCALE);
        let a: i64 = if a0 < 0 {
            0
        } else if a0 > SCALE {
            SCALE
        } else {
            a0
        };
        proof {
            lemma_fmul_unit_interval(SCALE - a as int, SCALE as int);
            lemma_fmul_unit_interval(a as int, 500_000);
            lemma_fmul_unit_interval(a as int, 700_000);
            lemma_fmul_unit_interval(a as int, SCALE as int);
            crate::fixed::lemma_fmul_unit(SCALE - a as int);
            crate::fixed::lemma_fmul_in_range(
                SCALE - a as int,
                SCALE as int,
                1_000_000,
                1_000_000,
                1_000_000,
            );
            crate::fixed::lemma_fmul_in_range(a as int, 500_000, 1_000_000, 1_000_000, 1_000_000);
            crate::fixed::lemma_fmul_in_range(a as int, 700_000, 1_000_000, 1_000_000, 1_000_000);
            crate::fixed::lemma_fmul_in_range(
                a as int,
                SCALE as int,
                1_000_000,
                1_000_000,
                1_000_000,
            );
        }
        let white: Vec3 = Vec3 { x: SCALE, y: SCALE, z: SCALE };
        let blue: Vec3 = Vec3 { x: 500_000, y: 700_000, z: SCALE };
        let w: Vec3 = white.scale(SCALE - a);
        let b: Vec3 = blue.scale(a);
        w.add(b)
    }
}

/// Everything the integrator guarantees of its result, for the stochastic
/// inputs that were drawn along the way: unit-interval channels; black at
/// the recursion floor; the sky gradient on a miss; and on a hit, the
/// scatter step below.
pub open spec fn color_post(
    world: Seq<crate::shapes::Sphere>,
    ray: Ray,
    depth: int,
    c: Vec3,
) -> bool
    decreases depth, 2int,
{
    &&& unit_color(c)
    &&& (depth <= 0 ==> c == (Vec3 { x: 0i64, y: 0i64, z: 0i64 }))
    &&& (depth > 0 ==> match crate::hittable::scene_hit_s(
        world,
        ray,
        1000,
        crate::hittable::T_LIMIT as int,
    ) {
        None => c == v3(background_s(ray)),
        Some(rec) => scatter_step_post(world, ray, rec, depth, c),
    })
}

/// The hit step of the integrator's contract: for some admissible scatter
/// draws, the result is black on absorption, or the attenuation times a
/// radiance of the scattered ray that satisfies the integrator's contract
/// one level down.
pub open spec fn scatter_step_post(
    world: Seq<crate::shapes::Sphere>,
    ray: Ray,
    rec: crate::hittable::HitRecord,
    depth: int,
    c: Vec3,
) -> bool
    decreases depth, 1int,
{
    exists|ru: Vec3, draw: int|
        #![trigger crate::materials::scatter_s(rec.material, ray, rec, ru, draw)]
        {
            &&& bounded(ru, 3 * SCALE as int)
            &&& 0 <= draw <= SCALE
            &&& match crate::materials::scatter_s(rec.material, ray, rec, ru, draw) {
                None => c == (Vec3 { x: 0i64, y: 0i64, z: 0i64 }),
                Some(p) => attenuated_post(world, rec.point, p, depth, c),
            }
        }
}

/// The scattered branch: `c` is the componentwise product of the
/// attenuation with some radiance of the scattered ray that satisfies the
/// integrator's contract at one less depth.
pub open spec fn attenuated_post(
    world: Seq<crate::shapes::Sphere>,
    point: Vec3,
    p: (Vec3, (int, int, int)),
    depth: int,
    c: Vec3,
) -> bool
    decreases depth, 0int,
{
    depth > 0 && exists|rest: Vec3|
        #![trigger fmul(p.0.x as int, rest.x as int)]
        {
            &&& color_post(world, Ray { origin: point, direction: v3(p.1) }, depth - 1, rest)
            &&& c.x == fmul(p.0.x as int, rest.x as int)
            &&& c.y == fmul(p.0.y as int, rest.y as int)
            &&& c.z == fmul(p.0.z as int, rest.z as int)
        }
}

/// The hit case of the integrator's contract: from a scatter result that
/// matches the model for some draws, and a recursive radiance for the
/// scattered ray, the attenuated product satisfies the contract.
proof fn lemma_color_post_hit(
    world: Seq<crate::shapes::Sphere>,
    ray: Ray,
    depth: int,
    rec: crate::hittable::HitRecord,
    sc: Option<crate::materials::Scatter>,
    col: Vec3,
    out: Vec3,
)
    requires
        depth > 0,
        crate::hittable::scene_hit_s(world, ray, 1000, crate::hittable::T_LIMIT as int) == Some(
            rec,
        ),
        exists|ru: Vec3, draw: int|
            {
                &&& bounded(ru, 3 * SCALE as int)
                &&& 0 <= draw <= SCALE
                &&& crate::materials::scatter_matches(rec.material, ray, rec, ru, draw, sc)
            },
        sc is Some ==> {
            &&& color_post(
                world,
                Ray {
                    origin: sc->Some_0.scattered.origin,
                    direction: sc->Some_0.scattered.direction,
                },
                depth - 1,
                col,
            )
            &&& out.x == fmul(sc->Some_0.attenuation.x as int, col.x as int)
            &&& out.y == fmul(sc->Some_0.attenuation.y as int, col.y as int)
            &&& out.z == fmul(sc->Some_0.attenuation.z as int, col.z as int)
            &&& unit_color(out)
        },
        sc is None ==> out == (Vec3 { x: 0i64, y: 0i64, z: 0i64 }),
    ensures
        color_post(world, ray, depth, out),
{
    let (ru0, draw0) = choose|ru: Vec3, draw: int|
        {
            &&& bounded(ru, 3 * SCALE as int)
            &&& 0 <= draw <= SCALE
            &&& crate::materials::scatter_matches(rec.material, ray, rec, ru, draw, sc)
        };
    match crate::materials::scatter_s(rec.material, ray, rec, ru0, draw0) {
        None => {
            assert(sc is None);
        },
        Some(p) => {
            let s = sc->Some_0;
            assert(s.scattered == (Ray { origin: rec.point, direction: v3(p.1) }));
            assert(color_post(world, Ray { origin: rec.point, direction: v3(p.1) }, depth - 1, col)
                && out.x == fmul(p.0.x as int, col.x as int) && out.y == fmul(
                p.0.y as int,
                col.y as int,
            ) && out.z == fmul(p.0.z as int, col.z as int));
            assert(attenuated_post(world, rec.point, p, depth, out));
        },
    }
    assert(scatter_step_post(world, ray, rec, depth, out));
}

/// A color with every channel in the unit interval./// A color with every channel in the unit interval.
pub open spec fn unit_color(c: Vec3) -> bool {
    &&& 0 <= c.x <= SCALE
    &&& 0 <= c.y <= SCALE
    &&& 0 <= c.z <= SCALE
}

/// The background gradient: `(1 - a) * white + a * blue` where `a` is half
/// of one plus the unit direction's vertical component, clamped to the
/// unit interval; black for a direction below unit length.
pub open spec fn background_s(r: Ray) -> (int, int, int) {
    if lensq_s(r.direction) < 1 {
        (0, 0, 0)
    } else {
        let u = v3(unit_s(r.direction));
        let a0 = fmul(500_000, u.y + SCALE);
        let a = if a0 < 0 {
            0
        } else if a0 > SCALE {
            SCALE as int
        } else {
            a0
        };
        (
            fmul(SCALE - a, SCALE as int) + fmul(a, 500_000),
            fmul(SCALE - a, SCALE as int) + fmul(a, 700_000),
            fmul(SCALE - a, SCALE as int) + fmul(a, SCALE as int),
        )
    }
}

/// The half-sum that drives the background gradient stays within `fx_mul`
/// range for any roughly unit height.
proof fn lemma_fmul_unit_range(y: int)
    requires
        -(3 * SCALE as int) <= y <= 3 * SCALE as int,
    ensures
        -(i64::MAX as int) * (SCALE as int) <= 500_000 * (y + SCALE) <= (i64::MAX as int) * (
        SCALE as int),
        -(4 * SCALE as int) <= fmul(500_000, y + SCALE) <= 4 * SCALE as int,
{
    crate::fixed::lemma_fmul_in_range(500_000, y + SCALE, 500_000, 4_000_000, 2_000_000);
}

} // verus!
