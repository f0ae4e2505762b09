//! The camera: precomputed viewport geometry, per-pixel ray generation
//! with anti-aliasing jitter and defocus-disk sampling, and the render
//! loop that accumulates samples into pixel lines.

use vstd::prelude::*;

verus! {

use crate::color::{color_line_s, write_color};
use crate::fixed::{
    div_tz, fmul, lemma_div_tz_bound, lemma_div_tz_mono, lemma_fmul_in_range, SCALE,
};
use crate::hittable::{wf_ray, DIR_MAX, ORIGIN_MAX};
use crate::ray::{unit_color, Ray};
use crate::shapes::{wf_sphere, Sphere};
use crate::vec3::{bounded, cross_s, lensq_s, unit_s, v3, vsub_s, Vec3, VMAX};

/// Half of one, in fixed point.
pub const HALF: i64 = 500_000;

#[derive(Clone, Copy, PartialEq, Eq, Structural)]
pub struct Camera {
    pub aspect_ratio: i64,
    pub image_width: i64,
    pub image_height: i64,
    pub center: Vec3,
    pub pixel00_loc: Vec3,
    pub pixel_delta_u: Vec3,
    pub pixel_delta_v: Vec3,
    pub samples_per_pixel: i64,
    pub pixel_samples_scale: i64,
    pub max_depth: u32,
    pub tan_half_fov: i64,
    pub lookfrom: Vec3,
    pub lookat: Vec3,
    pub vup: Vec3,
    pub u: Vec3,
    pub v: Vec3,
    pub w: Vec3,
    pub defocus_tan: i64,
    pub focus_dist: i64,
    pub defocus_disk_u: Vec3,
    pub defocus_disk_v: Vec3,
}

/// Image height: the width over the aspect ratio, rounded to the nearest
/// whole pixel (halves away from zero), and at least one.
pub open spec fn image_height_s(width: int, aspect: int) -> int {
    let q = div_tz(2 * (width * SCALE) + aspect, 2 * aspect);
    if q < 1 {
        1
    } else {
        q
    }
}

/// Viewport height: twice the half-height tangent times the focus
/// distance.
pub open spec fn viewport_h_s(tan_half_fov: int, focus_dist: int) -> int {
    fmul(2 * tan_half_fov, focus_dist)
}

/// Viewport width: the height scaled by the realized width-to-height
/// ratio.
pub open spec fn viewport_w_s(tan_half_fov: int, focus_dist: int, width: int, height: int) -> int {
    fmul(viewport_h_s(tan_half_fov, focus_dist), div_tz(width * SCALE, height))
}

/// The camera basis vector pointing from the target to the eye.
pub open spec fn basis_w_s(lookfrom: Vec3, lookat: Vec3) -> Vec3 {
    v3(unit_s(vsub_s(lookfrom, lookat)))
}

/// The camera basis vector pointing right.
pub open spec fn basis_u_s(vup: Vec3, w: Vec3) -> Vec3 {
    v3(unit_s(v3(cross_s(vup, w))))
}

/// The well-formedness of a camera that the ray generator relies on:
/// realized dimensions, a bounded basis, and viewport steps that stay
/// bounded even summed across the whole image.
pub open spec fn wf_camera(c: Camera) -> bool {
    &&& 1 <= c.image_width <= 10_000
    &&& 1 <= c.image_height <= 40_001
    &&& 1 <= c.samples_per_pixel <= 100_000
    &&& 0 <= c.pixel_samples_scale <= SCALE
    &&& bounded(c.center, 100_000_000)
    &&& bounded(c.pixel00_loc, 600_000_000)
    &&& -250_000_000 <= c.pixel_delta_u.x * c.image_width <= 250_000_000
    &&& -250_000_000 <= c.pixel_delta_u.y * c.image_width <= 250_000_000
    &&& -250_000_000 <= c.pixel_delta_u.z * c.image_width <= 250_000_000
    &&& -100_000_000 <= c.pixel_delta_v.x * c.image_height <= 100_000_000
    &&& -100_000_000 <= c.pixel_delta_v.y * c.image_height <= 100_000_000
    &&& -100_000_000 <= c.pixel_delta_v.z * c.image_height <= 100_000_000
    &&& bounded(c.pixel_delta_u, 250_000_000)
    &&& bounded(c.pixel_delta_v, 100_000_000)
    &&& bounded(c.defocus_disk_u, 20_000_000)
    &&& bounded(c.defocus_disk_v, 60_000_000)
    &&& c.max_depth == 50
}

/// The primary ray for pixel column `i`, row `j`, once the jitter offsets
/// and the defocus-disk point are fixed.
pub open spec fn get_ray_s(c: Camera, i: int, j: int, offx: int, offy: int, px: int, py: int)
    -> Ray {
    let sx = c.pixel00_loc.x + fmul(i * SCALE + offx, c.pixel_delta_u.x as int) + fmul(
        j * SCALE + offy,
        c.pixel_delta_v.x as int,
    );
    let sy = c.pixel00_loc.y + fmul(i * SCALE + offx, c.pixel_delta_u.y as int) + fmul(
        j * SCALE + offy,
        c.pixel_delta_v.y as int,
    );
    let sz = c.pixel00_loc.z + fmul(i * SCALE + offx, c.pixel_delta_u.z as int) + fmul(
        j * SCALE + offy,
        c.pixel_delta_v.z as int,
    );
    let origin = if c.defocus_tan <= 0 {
        c.center
    } else {
        Vec3 {
            x: (c.center.x + fmul(px, c.defocus_disk_u.x as int) + fmul(
                py,
                c.defocus_disk_v.x as int,
            )) as i64,
            y: (c.center.y + fmul(px, c.defocus_disk_u.y as int) + fmul(
                py,
                c.defocus_disk_v.y as int,
            )) as i64,
            z: (c.center.z + fmul(px, c.defocus_disk_u.z as int) + fmul(
                py,
                c.defocus_disk_v.z as int,
            )) as i64,
        }
    };
    Ray {
        origin,
        direction: Vec3 {
            x: (sx - origin.x) as i64,
            y: (sy - origin.y) as i64,
            z: (sz - origin.z) as i64,
        },
    }
}

/// One sample's radiance: the integrator's result, per its own contract,
/// for a freshly jittered primary ray of pixel column `i`, row `j`.
pub open spec fn one_sample_post(c: Camera, world: Seq<Sphere>, i: int, j: int, col: Vec3) -> bool {
    exists|offx: int, offy: int, px: int, py: int|
        #![trigger crate::ray::color_post(
            world,
            get_ray_s(c, i, j, offx, offy, px, py),
            c.max_depth as int,
            col,
        )]
        {
            &&& -HALF <= offx <= HALF
            &&& -HALF <= offy <= HALF
            &&& px * px + py * py < (SCALE as int) * (SCALE as int)
            &&& crate::ray::color_post(
                world,
                get_ray_s(c, i, j, offx, offy, px, py),
                c.max_depth as int,
                col,
            )
        }
}

/// The componentwise vector sum relation used by the sample
/// accumulation.
pub open spec fn extends_sum(prev: Vec3, col: Vec3, sum: Vec3) -> bool {
    &&& sum.x == prev.x + col.x
    &&& sum.y == prev.y + col.y
    &&& sum.z == prev.z + col.z
}

/// The radiance sum of the first `k` samples of pixel column `i`, row
/// `j`: each sample's radiance satisfies the integrator's contract for a
/// freshly jittered primary ray of that pixel.
pub open spec fn sample_sum_post(
    c: Camera,
    world: Seq<Sphere>,
    i: int,
    j: int,
    k: int,
    sum: Vec3,
) -> bool
    decreases k,
{
    if k <= 0 {
        sum == (Vec3 { x: 0i64, y: 0i64, z: 0i64 })
    } else {
        exists|prev: Vec3, col: Vec3|
            #![trigger extends_sum(prev, col, sum)]
            {
                &&& sample_sum_post(c, world, i, j, k - 1, prev)
                &&& one_sample_post(c, world, i, j, col)
                &&& extends_sum(prev, col, sum)
            }
    }
}

/// One pixel's final color: the per-sample radiance sum of the configured
/// number of samples, scaled by the precomputed reciprocal sample count.
pub open spec fn pixel_post(c: Camera, world: Seq<Sphere>, i: int, j: int, out: Vec3) -> bool {
    exists|sum: Vec3|
        #![trigger sample_sum_post(c, world, i, j, c.samples_per_pixel as int, sum)]
        {
            &&& sample_sum_post(c, world, i, j, c.samples_per_pixel as int, sum)
            &&& out.x == fmul(c.pixel_samples_scale as int, sum.x as int)
            &&& out.y == fmul(c.pixel_samples_scale as int, sum.y as int)
            &&& out.z == fmul(c.pixel_samples_scale as int, sum.z as int)
        }
}

/// Extending a sample sum by one more sample keeps the accumulation
/// contract.
proof fn lemma_sample_sum_step(
    c: Camera,
    world: Seq<Sphere>,
    i: int,
    j: int,
    k: int,
    prev: Vec3,
    col: Vec3,
    sum: Vec3,
)
    requires
        k > 0,
        sample_sum_post(c, world, i, j, k - 1, prev),
        one_sample_post(c, world, i, j, col),
        sum.x == prev.x + col.x,
        sum.y == prev.y + col.y,
        sum.z == prev.z + col.z,
    ensures
        sample_sum_post(c, world, i, j, k, sum),
{
    assert(extends_sum(prev, col, sum));
}

/// The concatenated pixel lines of a sequence of colors.
pub open spec fn lines_s(pix: Seq<Vec3>) -> Seq<u8>
    decreases pix.len(),
{
    if pix.len() == 0 {
        Seq::<u8>::empty()
    } else {
        lines_s(pix.drop_last()) + color_line_s(pix.last())
    }
}

impl Camera {
    /// Precompute the viewport geometry. The field-of-view and defocus
    /// angles enter as the tangents of their half-angles, which the
    /// caller computes (trigonometry stays outside the verified core).
    #[verifier::rlimit(100)]
    #[verifier::spinoff_prover]
    pub fn new(
        aspect_ratio: i64,
        image_width: i64,
        tan_half_fov: i64,
        samples_per_pixel: i64,
        lookfrom: Vec3,
        lookat: Vec3,
        vup: Vec3,
        focus_dist: i64,
        tan_half_defocus: i64,
    ) -> (cam: Camera)
        requires
            250_000 <= aspect_ratio <= 4_000_000,
            1 <= image_width <= 10_000,
            1 <= samples_per_pixel <= 100_000,
            0 < tan_half_fov <= 2_000_000,
            0 < focus_dist <= 100_000_000,
            fmul(2 * tan_half_fov, focus_dist as int) <= 20_000_000,
            -1_000_000 <= tan_half_defocus <= 1_000_000,
            -10_000_000 <= fmul(focus_dist as int, tan_half_defocus as int) <= 10_000_000,
            bounded(lookfrom, 100_000_000),
            bounded(lookat, 100_000_000),
            bounded(vup, 2_000_000),
            lensq_s(vsub_s(lookfrom, lookat)) >= 1,
            lensq_s(v3(cross_s(vup, basis_w_s(lookfrom, lookat)))) >= 1,
        ensures
            wf_camera(cam),
            cam.center == lookfrom,
            cam.lookfrom == lookfrom,
            cam.lookat == lookat,
            cam.vup == vup,
            cam.aspect_ratio == aspect_ratio,
            cam.image_width == image_width,
            cam.image_height == image_height_s(image_width as int, aspect_ratio as int),
            cam.samples_per_pixel == samples_per_pixel,
            cam.pixel_samples_scale == div_tz(SCALE as int, samples_per_pixel as int),
            cam.tan_half_fov == tan_half_fov,
            cam.focus_dist == focus_dist,
            cam.defocus_tan == tan_half_defocus,
            cam.max_depth == 50,
            cam.w == basis_w_s(lookfrom, lookat),
            cam.u == basis_u_s(vup, cam.w),
            cam.v == v3(cross_s(cam.w, cam.u)),
            cam.pixel_delta_u.x == div_tz(
                fmul(
                    viewport_w_s(
                        tan_half_fov as int,
                        focus_dist as int,
                        image_width as int,
                        cam.image_height as int,
                    ),
                    cam.u.x as int,
                ),
                image_width as int,
            ),
            cam.pixel_delta_u.y == div_tz(
                fmul(
                    viewport_w_s(
                        tan_half_fov as int,
                        focus_dist as int,
                        image_width as int,
                        cam.image_height as int,
                    ),
                    cam.u.y as int,
                ),
                image_width as int,
            ),
            cam.pixel_delta_u.z == div_tz(
                fmul(
                    viewport_w_s(
                        tan_half_fov as int,
                        focus_dist as int,
                        image_width as int,
                        cam.image_height as int,
                    ),
                    cam.u.z as int,
                ),
                image_width as int,
            ),
            cam.pixel_delta_v.x == div_tz(
                fmul(viewport_h_s(tan_half_fov as int, focus_dist as int), -cam.v.x as int),
                cam.image_height as int,
            ),
            cam.pixel_delta_v.y == div_tz(
                fmul(viewport_h_s(tan_half_fov as int, focus_dist as int), -cam.v.y as int),
                cam.image_height as int,
            ),
            cam.pixel_delta_v.z == div_tz(
                fmul(viewport_h_s(tan_half_fov as int, focus_dist as int), -cam.v.z as int),
                cam.image_height as int,
            ),
            cam.defocus_disk_u.x == fmul(
                fmul(focus_dist as int, tan_half_defocus as int),
                cam.u.x as int,
            ),
            cam.defocus_disk_v.x == fmul(
                fmul(focus_dist as int, tan_half_defocus as int),
                cam.v.x as int,
            ),
    {
        proof {
            lemma_height_bounds(image_width as int, aspect_ratio as int);
            assert(2 * (image_width as i128) * (SCALE as i128) == 2 * ((image_width as int)
                * (SCALE as int)) && 0 <= 2 * (image_width as i128) * (SCALE as i128)
                <= 20_000_000_000i128) by (nonlinear_arith)
                requires
                    1 <= image_width <= 10_000,
                    SCALE == 1_000_000,
            ;
        }
        let num: i128 = 2 * (image_width as i128) * (SCALE as i128) + (aspect_ratio as i128);
        let q0: i128 = crate::fixed::div_q(num, 2 * (aspect_ratio as i128));
        let image_height: i64 = if q0 < 1 {
            1
        } else {
            q0 as i64
        };
        let center: Vec3 = lookfrom;
        let vh: i64 = crate::fixed::fx_mul(2 * tan_half_fov, focus_dist);
        proof {
            lemma_fmul_in_range(
                2 * tan_half_fov as int,
                focus_dist as int,
                4_000_000,
                100_000_000,
                400_000_000,
            );
            crate::fixed::lemma_div_tz_bound(
                (image_width as int) * SCALE,
                image_height as int,
                8_000_000,
            );
            assert(vh >= 0) by {
                vstd::arithmetic::div_mod::lemma_div_pos_is_pos(
                    (2 * tan_half_fov as int) * (focus_dist as int),
                    SCALE as int,
                );
                assert((2 * tan_half_fov as int) * (focus_dist as int) >= 0) by (nonlinear_arith)
                    requires
                        tan_half_fov > 0,
                        focus_dist > 0,
                ;
            }
        }
        let ratio: i64 = crate::fixed::fx_div(image_width, image_height);
        proof {
            lemma_fmul_in_range(vh as int, ratio as int, 20_000_000, 8_000_000, 160_000_000);
        }
        let vw: i64 = crate::fixed::fx_mul(vh, ratio);
        let diff: Vec3 = lookfrom.sub(lookat);
        proof {
            assert(diff == vsub_s(lookfrom, lookat));
        }
        let w: Vec3 = diff.unit_vector();
        let cr: Vec3 = vup.cross(w);
        proof {
            lemma_cross_bound(vup, w, 2_000_000, 1_500_000, 6_000_000);
            assert(cr == v3(cross_s(vup, w)));
            assert(w == basis_w_s(lookfrom, lookat));
        }
        let u: Vec3 = cr.unit_vector();
        let v: Vec3 = w.cross(u);
        proof {
            lemma_cross_bound(w, u, 1_500_000, 1_500_000, 4_500_000);
            lemma_fmul_in_range(vw as int, u.x as int, 160_000_000, 1_500_000, 240_000_000);
            lemma_fmul_in_range(vw as int, u.y as int, 160_000_000, 1_500_000, 240_000_000);
            lemma_fmul_in_range(vw as int, u.z as int, 160_000_000, 1_500_000, 240_000_000);
            lemma_fmul_in_range(vh as int, -(v.x as int), 20_000_000, 4_500_000, 90_000_000);
            lemma_fmul_in_range(vh as int, -(v.y as int), 20_000_000, 4_500_000, 90_000_000);
            lemma_fmul_in_range(vh as int, -(v.z as int), 20_000_000, 4_500_000, 90_000_000);
        }
        let viewport_u: Vec3 = u.scale(vw);
        let viewport_v: Vec3 = v.neg().scale(vh);
        let pixel_delta_u: Vec3 = viewport_u.div_scalar(image_width);
        let pixel_delta_v: Vec3 = viewport_v.div_scalar(image_height);
        proof {
            lemma_delta_bound(viewport_u.x as int, image_width as int, 240_000_000);
            lemma_delta_bound(viewport_u.y as int, image_width as int, 240_000_000);
            lemma_delta_bound(viewport_u.z as int, image_width as int, 240_000_000);
            lemma_delta_bound(viewport_v.x as int, image_height as int, 90_000_000);
            lemma_delta_bound(viewport_v.y as int, image_height as int, 90_000_000);
            lemma_delta_bound(viewport_v.z as int, image_height as int, 90_000_000);
            lemma_fmul_in_range(focus_dist as int, w.x as int, 100_000_000, 1_500_000, 150_000_000);
            lemma_fmul_in_range(focus_dist as int, w.y as int, 100_000_000, 1_500_000, 150_000_000);
            lemma_fmul_in_range(focus_dist as int, w.z as int, 100_000_000, 1_500_000, 150_000_000);
        }
        let focus_w: Vec3 = w.scale(focus_dist);
        let half_vu: Vec3 = viewport_u.div_scalar(2);
        let half_vv: Vec3 = viewport_v.div_scalar(2);
        proof {
            lemma_div_tz_bound(viewport_u.x as int, 2, 240_000_000);
            lemma_div_tz_bound(viewport_u.y as int, 2, 240_000_000);
            lemma_div_tz_bound(viewport_u.z as int, 2, 240_000_000);
            lemma_div_tz_bound(viewport_v.x as int, 2, 90_000_000);
            lemma_div_tz_bound(viewport_v.y as int, 2, 90_000_000);
            lemma_div_tz_bound(viewport_v.z as int, 2, 90_000_000);
        }
        let viewport_upper_left: Vec3 = center.sub(focus_w).sub(half_vu).sub(half_vv);
        let delta_sum: Vec3 = pixel_delta_u.add(pixel_delta_v);
        proof {
            lemma_fmul_in_range(HALF as int, delta_sum.x as int, 500_000, 340_000_000, 170_000_000);
            lemma_fmul_in_range(HALF as int, delta_sum.y as int, 500_000, 340_000_000, 170_000_000);
            lemma_fmul_in_range(HALF as int, delta_sum.z as int, 500_000, 340_000_000, 170_000_000);
        }
        let pixel00_loc: Vec3 = viewport_upper_left.add(delta_sum.scale(HALF));
        let defocus_radius: i64 = crate::fixed::fx_mul(focus_dist, tan_half_defocus);
        proof {
            lemma_fmul_in_range(
                focus_dist as int,
                tan_half_defocus as int,
                100_000_000,
                1_000_000,
                100_000_000,
            );
            lemma_fmul_in_range(
                defocus_radius as int,
                u.x as int,
                10_000_000,
                1_500_000,
                15_000_000,
            );
            lemma_fmul_in_range(
                defocus_radius as int,
                u.y as int,
                10_000_000,
                1_500_000,
                15_000_000,
            );
            lemma_fmul_in_range(
                defocus_radius as int,
                u.z as int,
                10_000_000,
                1_500_000,
                15_000_000,
            );
            lemma_fmul_in_range(
                defocus_radius as int,
                v.x as int,
                10_000_000,
                4_500_000,
                45_000_000,
            );
            lemma_fmul_in_range(
                defocus_radius as int,
                v.y as int,
                10_000_000,
                4_500_000,
                45_000_000,
            );
            lemma_fmul_in_range(
                defocus_radius as int,
                v.z as int,
                10_000_000,
                4_500_000,
                45_000_000,
            );
        }
        let defocus_disk_u: Vec3 = u.scale(defocus_radius);
        let defocus_disk_v: Vec3 = v.scale(defocus_radius);
        proof {
            lemma_div_tz_bound(SCALE as int, samples_per_pixel as int, 1_000_000);
            vstd::arithmetic::div_mod::lemma_div_pos_is_pos(
                SCALE as int,
                samples_per_pixel as int,
            );
        }
        let pixel_samples_scale: i64 = crate::fixed::div_q(
            SCALE as i128,
            samples_per_pixel as i128,
        ) as i64;
        Camera {
            aspect_ratio,
            image_width,
            image_height,
            center,
            pixel00_loc,
            pixel_delta_u,
            pixel_delta_v,
            samples_per_pixel,
            pixel_samples_scale,
            max_depth: 50,
            tan_half_fov,
            lookfrom,
            lookat,
            vup,
            u,
            v,
            w,
            defocus_tan: tan_half_defocus,
            focus_dist,
            defocus_disk_u,
            defocus_disk_v,
        }
    }
}

impl Camera {
    /// The jitter offset for one sample: a uniform point in the
    /// half-open unit square centered on the pixel.
    pub fn sample_square() -> (r: Vec3)
        ensures
            -HALF <= r.x <= HALF,
            -HALF <= r.y <= HALF,
            r.z == 0,
    {
        let rx: i64 = crate::utils::random_fraction() - HALF;
        let ry: i64 = crate::utils::random_fraction() - HALF;
        Vec3 { x: rx, y: ry, z: 0 }
    }

    /// The primary ray for pixel `(i, j)` with the stochastic inputs
    /// fixed: jitter offsets and the defocus-disk point.
    pub fn get_ray_with(&self, i: i64, j: i64, offx: i64, offy: i64, px: i64, py: i64) -> (r: Ray)
        requires
            wf_camera(*self),
            0 <= i < self.image_width,
            0 <= j < self.image_height,
            -HALF <= offx <= HALF,
            -HALF <= offy <= HALF,
            -SCALE <= px <= SCALE,
            -SCALE <= py <= SCALE,
        ensures
            r == get_ray_s(*self, i as int, j as int, offx as int, offy as int, px as int,
            py as int),
            wf_ray(r),
            bounded(r.origin, 200_000_000),
    {
        let ti: i64 = i * SCALE + offx;
        let tj: i64 = j * SCALE + offy;
        proof {
            lemma_step_bound(ti as int, self.pixel_delta_u.x as int, self.image_width as int, 250_000_000);
            lemma_step_bound(ti as int, self.pixel_delta_u.y as int, self.image_width as int, 250_000_000);
            lemma_step_bound(ti as int, self.pixel_delta_u.z as int, self.image_width as int, 250_000_000);
            lemma_step_bound(tj as int, self.pixel_delta_v.x as int, self.image_height as int, 100_000_000);
            lemma_step_bound(tj as int, self.pixel_delta_v.y as int, self.image_height as int, 100_000_000);
            lemma_step_bound(tj as int, self.pixel_delta_v.z as int, self.image_height as int, 100_000_000);
        }
        let sx: i64 = self.pixel00_loc.x + crate::fixed::fx_mul(ti, self.pixel_delta_u.x)
            + crate::fixed::fx_mul(tj, self.pixel_delta_v.x);
        let sy: i64 = self.pixel00_loc.y + crate::fixed::fx_mul(ti, self.pixel_delta_u.y)
            + crate::fixed::fx_mul(tj, self.pixel_delta_v.y);
        let sz: i64 = self.pixel00_loc.z + crate::fixed::fx_mul(ti, self.pixel_delta_u.z)
            + crate::fixed::fx_mul(tj, self.pixel_delta_v.z);
        let origin: Vec3 = if self.defocus_tan <= 0 {
            self.center
        } else {
            proof {
                lemma_fmul_in_range(px as int, self.defocus_disk_u.x as int, 1_000_000, 20_000_000, 20_000_000);
                lemma_fmul_in_range(px as int, self.defocus_disk_u.y as int, 1_000_000, 20_000_000, 20_000_000);
                lemma_fmul_in_range(px as int, self.defocus_disk_u.z as int, 1_000_000, 20_000_000, 20_000_000);
                lemma_fmul_in_range(py as int, self.defocus_disk_v.x as int, 1_000_000, 60_000_000, 60_000_000);
                lemma_fmul_in_range(py as int, self.defocus_disk_v.y as int, 1_000_000, 60_000_000, 60_000_000);
                lemma_fmul_in_range(py as int, self.defocus_disk_v.z as int, 1_000_000, 60_000_000, 60_000_000);
            }
            let ox: i64 = self.center.x + crate::fixed::fx_mul(px, self.defocus_disk_u.x)
                + crate::fixed::fx_mul(py, self.defocus_disk_v.x);
            let oy: i64 = self.center.y + crate::fixed::fx_mul(px, self.defocus_disk_u.y)
                + crate::fixed::fx_mul(py, self.defocus_disk_v.y);
            let oz: i64 = self.center.z + crate::fixed::fx_mul(px, self.defocus_disk_u.z)
                + crate::fixed::fx_mul(py, self.defocus_disk_v.z);
            Vec3 { x: ox, y: oy, z: oz }
        };
        let dir: Vec3 = Vec3 { x: sx - origin.x, y: sy - origin.y, z: sz - origin.z };
        Ray::new(origin, dir)
    }

    /// A freshly jittered primary ray for pixel `(i, j)`: whatever the
    /// draws, it is the modeled ray for some admissible jitter and disk
    /// point.
    pub fn get_ray(&self, i: i64, j: i64) -> (r: Ray)
        requires
            wf_camera(*self),
            0 <= i < self.image_width,
            0 <= j < self.image_height,
        ensures
            wf_ray(r),
            bounded(r.origin, 200_000_000),
            exists|offx: int, offy: int, px: int, py: int|
                #![auto]
                {
                    &&& -HALF <= offx <= HALF
                    &&& -HALF <= offy <= HALF
                    &&& px * px + py * py < (SCALE as int) * (SCALE as int)
                    &&& r == get_ray_s(*self, i as int, j as int, offx, offy, px, py)
                },
    {
        let off: Vec3 = Self::sample_square();
        let p: Vec3 = crate::utils::random_in_unit_disk();
        let r = self.get_ray_with(i, j, off.x, off.y, p.x, p.y);
        proof {
            crate::vec3::lemma_disk_raw(p);
            assert(-HALF <= off.x as int <= HALF && -HALF <= off.y as int <= HALF && (p.x as int)
                * (p.x as int) + (p.y as int) * (p.y as int) < (SCALE as int) * (SCALE as int)
                && r == get_ray_s(
                *self,
                i as int,
                j as int,
                off.x as int,
                off.y as int,
                p.x as int,
                p.y as int,
            ));
        }
        r
    }

    /// Render the scene: for every pixel, average the traced radiance of
    /// the configured number of jittered samples and emit its text line,
    /// row-major, top row first.
    #[verifier::rlimit(100)]
    #[verifier::spinoff_prover]
    pub fn render(&self, world: &Vec<Sphere>) -> (buf: Vec<u8>)
        requires
            wf_camera(*self),
            forall|k: int| 0 <= k < world@.len() ==> wf_sphere(#[trigger] world@[k]),
        ensures
            exists|pix: Seq<Vec3>|
                #![auto]
                {
                    &&& pix.len() == self.image_height * self.image_width
                    &&& buf@ == lines_s(pix)
                    &&& forall|p: int|
                        0 <= p < pix.len() ==> pixel_post(
                            *self,
                            world@,
                            p % (self.image_width as int),
                            p / (self.image_width as int),
                            #[trigger] pix[p],
                        )
                },
    {
        let mut buf: Vec<u8> = Vec::new();
        let ghost mut pix: Seq<Vec3> = Seq::empty();
        let mut j: i64 = 0;
        while j < self.image_height
            invariant
                wf_camera(*self),
                forall|k: int| 0 <= k < world@.len() ==> wf_sphere(#[trigger] world@[k]),
                0 <= j <= self.image_height,
                pix.len() == j * self.image_width,
                buf@ == lines_s(pix),
                forall|p: int|
                    0 <= p < pix.len() ==> pixel_post(
                        *self,
                        world@,
                        p % (self.image_width as int),
                        p / (self.image_width as int),
                        #[trigger] pix[p],
                    ),
            decreases self.image_height - j,
        {
            let mut i: i64 = 0;
            while i < self.image_width
                invariant
                    wf_camera(*self),
                    forall|k: int| 0 <= k < world@.len() ==> wf_sphere(#[trigger] world@[k]),
                    0 <= j < self.image_height,
                    0 <= i <= self.image_width,
                    pix.len() == j * self.image_width + i,
                    buf@ == lines_s(pix),
                    forall|p: int|
                        0 <= p < pix.len() ==> pixel_post(
                            *self,
                            world@,
                            p % (self.image_width as int),
                            p / (self.image_width as int),
                            #[trigger] pix[p],
                        ),
                decreases self.image_width - i,
            {
                let mut sum: Vec3 = Vec3 { x: 0, y: 0, z: 0 };
                let mut k: i64 = 0;
                while k < self.samples_per_pixel
                    invariant
                        wf_camera(*self),
                        forall|m: int| 0 <= m < world@.len() ==> wf_sphere(#[trigger] world@[m]),
                        0 <= j < self.image_height,
                        0 <= i < self.image_width,
                        0 <= k <= self.samples_per_pixel,
                        0 <= sum.x <= k * SCALE,
                        0 <= sum.y <= k * SCALE,
                        0 <= sum.z <= k * SCALE,
                        sample_sum_post(*self, world@, i as int, j as int, k as int, sum),
                    decreases self.samples_per_pixel - k,
                {
                    let ray: Ray = self.get_ray(i, j);
                    let c: Vec3 = ray.color(world, self.max_depth);
                    let prev_sum: Vec3 = sum;
                    sum = sum.add(c);
                    k = k + 1;
                    proof {
                        let (offx0, offy0, px0, py0) = choose|
                            offx: int,
                            offy: int,
                            px: int,
                            py: int,
                        |
                            #![auto]
                            {
                                &&& -HALF <= offx <= HALF
                                &&& -HALF <= offy <= HALF
                                &&& px * px + py * py < (SCALE as int) * (SCALE as int)
                                &&& ray == get_ray_s(*self, i as int, j as int, offx, offy, px, py)
                            };
                        assert(crate::ray::color_post(
                            world@,
                            get_ray_s(*self, i as int, j as int, offx0, offy0, px0, py0),
                            self.max_depth as int,
                            c,
                        ));
                        assert(one_sample_post(*self, world@, i as int, j as int, c));
                        lemma_sample_sum_step(
                            *self,
                            world@,
                            i as int,
                            j as int,
                            k as int,
                            prev_sum,
                            c,
                            sum,
                        );
                    }
                }
                proof {
                    assert((self.pixel_samples_scale as int) * (sum.x as int) <= (i64::MAX as int)
                        * (SCALE as int) && 0 <= (self.pixel_samples_scale as int) * (
                    sum.x as int)) by (nonlinear_arith)
                        requires
                            0 <= self.pixel_samples_scale <= 1_000_000,
                            0 <= sum.x <= 100_000_000_000,
                    ;
                    assert((self.pixel_samples_scale as int) * (sum.y as int) <= (i64::MAX as int)
                        * (SCALE as int) && 0 <= (self.pixel_samples_scale as int) * (
                    sum.y as int)) by (nonlinear_arith)
                        requires
                            0 <= self.pixel_samples_scale <= 1_000_000,
                            0 <= sum.y <= 100_000_000_000,
                    ;
                    assert((self.pixel_samples_scale as int) * (sum.z as int) <= (i64::MAX as int)
                        * (SCALE as int) && 0 <= (self.pixel_samples_scale as int) * (
                    sum.z as int)) by (nonlinear_arith)
                        requires
                            0 <= self.pixel_samples_scale <= 1_000_000,
                            0 <= sum.z <= 100_000_000_000,
                    ;
                    assert(0 <= k * SCALE <= 100_000_000_000) by (nonlinear_arith)
                        requires
                            0 <= k <= 100_000,
                            SCALE == 1_000_000,
                    ;
                }
                let avg: Vec3 = sum.scale(self.pixel_samples_scale);
                write_color(&mut buf, avg);
                proof {
                    assert(pixel_post(*self, world@, i as int, j as int, avg));
                    let p0 = pix.len() as int;
                    vstd::arithmetic::div_mod::lemma_fundamental_div_mod_converse(
                        p0,
                        self.image_width as int,
                        j as int,
                        i as int,
                    );
                    let pix2 = pix.push(avg);
                    assert(pix2.drop_last() =~= pix);
                    assert(pix2.last() == avg);
                    assert(pix2[p0] == avg);
                    assert(forall|p: int| 0 <= p < pix.len() ==> pix2[p] == #[trigger] pix[p]);
                    pix = pix2;
                }
                i = i + 1;
            }
            j = j + 1;
            proof {
                assert(pix.len() == j * self.image_width) by (nonlinear_arith)
                    requires
                        pix.len() == (j - 1) * self.image_width + self.image_width,
                ;
            }
        }
        buf
    }
}

/// A jittered pixel coordinate times a viewport step stays within the
/// viewport span.
proof fn lemma_step_bound(ti: int, d: int, count: int, cap: int)
    requires
        1 <= count,
        0 <= cap <= i64::MAX as int,
        -(count * SCALE) <= ti <= count * SCALE,
        -cap <= d * count <= cap,
    ensures
        -(i64::MAX as int) * (SCALE as int) <= ti * d <= (i64::MAX as int) * (SCALE as int),
        -cap <= fmul(ti, d) <= cap,
{
    assert(-(cap * SCALE) <= ti * d <= cap * SCALE && cap * (SCALE as int) <= (i64::MAX as int) * (
    SCALE as int)) by (nonlinear_arith)
        requires
            1 <= count,
            0 <= cap <= i64::MAX as int,
            -(count * SCALE) <= ti <= count * SCALE,
            -cap <= d * count <= cap,
            SCALE == 1_000_000,
    ;
    lemma_div_tz_bound(ti * d, SCALE as int, cap);
}

/// Bounds of the realized image height: it stays under four widths plus
/// one, and eight of it cover the width (the aspect ratio lies in
/// `[1/4, 4]`).
proof fn lemma_height_bounds(width: int, aspect: int)
    requires
        1 <= width <= 10_000,
        250_000 <= aspect <= 4_000_000,
    ensures
        ({
            let q = div_tz(2 * (width * SCALE) + aspect, 2 * aspect);
            let h = image_height_s(width, aspect);
            &&& 0 <= q <= 40_001
            &&& 1 <= h <= 40_001
            &&& -(8_000_000 * h) <= width * SCALE <= 8_000_000 * h
            &&& -(i64::MAX as int) * h <= width * SCALE <= (i64::MAX as int) * h
        }),
{
    let n = 2 * (width * SCALE) + aspect;
    let a2 = 2 * aspect;
    let q = div_tz(n, a2);
    let h = image_height_s(width, aspect);
    assert(0 < n && 0 <= width * SCALE <= 10_000_000_000) by (nonlinear_arith)
        requires
            1 <= width <= 10_000,
            250_000 <= aspect <= 4_000_000,
            n == 2 * (width * SCALE) + aspect,
            SCALE == 1_000_000,
    ;
    assert(n < (4 * width + 2) * a2) by (nonlinear_arith)
        requires
            n == 2 * (width * SCALE) + aspect,
            a2 == 2 * aspect,
            250_000 <= aspect,
            1 <= width,
            SCALE == 1_000_000,
    ;
    crate::fixed::lemma_div_tz_below(n, a2, 4 * width + 2);
    vstd::arithmetic::div_mod::lemma_fundamental_div_mod(n, a2);
    vstd::arithmetic::div_mod::lemma_mod_bound(n, a2);
    assert(a2 * q + a2 > n) by (nonlinear_arith)
        requires
            n == a2 * (n / a2) + n % a2,
            0 <= n % a2 < a2,
            q == n / a2,
            0 < n,
    ;
    assert(8_000_000 * h >= width * SCALE) by (nonlinear_arith)
        requires
            a2 * q + a2 > n,
            n == 2 * (width * SCALE) + aspect,
            a2 == 2 * aspect,
            250_000 <= aspect <= 4_000_000,
            1 <= width <= 10_000,
            h == (if q < 1 {
                1int
            } else {
                q
            }),
            0 <= q,
            SCALE == 1_000_000,
    ;
    assert(-(i64::MAX as int) * h <= width * SCALE <= (i64::MAX as int) * h) by (nonlinear_arith)
        requires
            1 <= h,
            0 <= width * SCALE <= 10_000_000_000,
    ;
}

/// Componentwise bound for a cross product of bounded vectors.
proof fn lemma_cross_bound(a: Vec3, b: Vec3, ba: int, bb: int, bo: int)
    requires
        0 <= ba <= VMAX as int,
        0 <= bb <= VMAX as int,
        bounded(a, ba),
        bounded(b, bb),
        2 * (ba * bb) <= bo * SCALE,
        0 <= bo <= i64::MAX as int,
    ensures
        bounded(v3(cross_s(a, b)), bo),
        cross_s(a, b).0 == v3(cross_s(a, b)).x,
        cross_s(a, b).1 == v3(cross_s(a, b)).y,
        cross_s(a, b).2 == v3(cross_s(a, b)).z,
{
    assert(-(ba * bb) <= a.y * b.z <= ba * bb && -(ba * bb) <= a.z * b.y <= ba * bb && -(ba * bb)
        <= a.z * b.x <= ba * bb && -(ba * bb) <= a.x * b.z <= ba * bb && -(ba * bb) <= a.x * b.y
        <= ba * bb && -(ba * bb) <= a.y * b.x <= ba * bb) by (nonlinear_arith)
        requires
            bounded(a, ba),
            bounded(b, bb),
            0 <= ba,
            0 <= bb,
    ;
    lemma_div_tz_mono(a.y * b.z, ba * bb, SCALE as int);
    lemma_div_tz_mono(a.z * b.y, ba * bb, SCALE as int);
    lemma_div_tz_mono(a.z * b.x, ba * bb, SCALE as int);
    lemma_div_tz_mono(a.x * b.z, ba * bb, SCALE as int);
    lemma_div_tz_mono(a.x * b.y, ba * bb, SCALE as int);
    lemma_div_tz_mono(a.y * b.x, ba * bb, SCALE as int);
    vstd::arithmetic::div_mod::lemma_fundamental_div_mod(ba * bb, SCALE as int);
    vstd::arithmetic::div_mod::lemma_mod_bound(ba * bb, SCALE as int);
    assert(2 * ((ba * bb) / (SCALE as int)) <= bo) by (nonlinear_arith)
        requires
            2 * (ba * bb) <= bo * SCALE,
            ba * bb == (SCALE as int) * ((ba * bb) / (SCALE as int)) + (ba * bb) % (
            SCALE as int),
            0 <= (ba * bb) % (SCALE as int) < SCALE as int,
            SCALE == 1_000_000,
            0 <= bo,
            0 <= ba * bb,
    ;
}

/// A viewport step times its pixel count stays within the viewport span.
proof fn lemma_delta_bound(comp: int, count: int, span: int)
    requires
        1 <= count,
        0 <= span,
        -span <= comp <= span,
    ensures
        -(span + count) <= div_tz(comp, count) * count <= span + count,
        -span <= div_tz(comp, count) <= span,
{
    assert(span <= span * count && -(span * count) <= -span) by (nonlinear_arith)
        requires
            1 <= count,
            0 <= span,
    ;
    lemma_div_tz_bound(comp, count, span);
    vstd::arithmetic::div_mod::lemma_fundamental_div_mod(comp, count);
    vstd::arithmetic::div_mod::lemma_mod_bound(comp, count);
    if comp >= 0 {
        assert(div_tz(comp, count) * count <= comp && div_tz(comp, count) * count >= comp - count)
            by (nonlinear_arith)
            requires
                comp == count * (comp / count) + comp % count,
                0 <= comp % count < count,
                div_tz(comp, count) == comp / count,
        ;
    } else {
        vstd::arithmetic::div_mod::lemma_fundamental_div_mod(-comp, count);
        vstd::arithmetic::div_mod::lemma_mod_bound(-comp, count);
        assert(-comp - count <= ((-comp) / count) * count <= -comp) by (nonlinear_arith)
            requires
                -comp == count * ((-comp) / count) + (-comp) % count,
                0 <= (-comp) % count < count,
        ;
        assert(div_tz(comp, count) * count == -(((-comp) / count) * count)) by (nonlinear_arith)
            requires
                div_tz(comp, count) == -((-comp) / count),
        ;
    }
}

} // verus!
