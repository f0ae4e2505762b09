use raytracer_1weekend::camera::Camera;
use raytracer_1weekend::color::{channel_byte, linear_to_gamma, write_color};
use raytracer_1weekend::hittable::hit;
use raytracer_1weekend::materials::{reflectance, Material};
use raytracer_1weekend::ray::Ray;
use raytracer_1weekend::shapes::Sphere;
use raytracer_1weekend::utils::{
    deg2rad, random_fraction, random_in_unit_disk, random_in_unit_sphere, random_on_hemisphere,
    random_unit_vector,
};
use raytracer_1weekend::vec3::Vec3;

const S: i64 = 1_000_000;

fn gray() -> Material {
    Material::Lambertian { albedo: Vec3::new(S / 2, S / 2, S / 2) }
}

#[test]
fn gamma_of_one_quarter_is_one_half() {
    assert_eq!(linear_to_gamma(S / 4), S / 2);
    assert_eq!(linear_to_gamma(0), 0);
    assert_eq!(linear_to_gamma(-5), 0);
}

#[test]
fn byte_mapping_clamps_and_scales() {
    assert_eq!(channel_byte(S), 255);
    assert_eq!(channel_byte(0), 0);
    assert_eq!(channel_byte(S / 2), 181);
    assert_eq!(channel_byte(2 * S), 255);
    assert_eq!(channel_byte(-S), 0);
    assert_eq!(channel_byte(i64::MAX), 255);
}

#[test]
fn pixel_line_text() {
    let mut buf: Vec<u8> = Vec::new();
    write_color(&mut buf, Vec3::new(S, 0, S / 2));
    assert_eq!(buf, b"255 0 181 \n".to_vec());
}

#[test]
fn background_straight_up_is_sky_blue() {
    let r = Ray::new(Vec3::zero(), Vec3::new(0, S, 0));
    let c = r.background();
    assert_eq!((c.x, c.y, c.z), (S / 2, 700_000, S));
}

#[test]
fn background_straight_down_is_white() {
    let r = Ray::new(Vec3::zero(), Vec3::new(0, -S, 0));
    let c = r.background();
    assert_eq!((c.x, c.y, c.z), (S, S, S));
}

#[test]
fn trace_at_depth_zero_is_black() {
    let world = vec![Sphere::new(Vec3::new(0, 0, -S), S / 2, gray())];
    let r = Ray::new(Vec3::zero(), Vec3::new(0, 0, -S));
    let c = r.color(&world, 0);
    assert_eq!((c.x, c.y, c.z), (0, 0, 0));
}

#[test]
fn sphere_hit_dead_on() {
    let s = Sphere::new(Vec3::new(0, 0, -S), S / 2, gray());
    let r = Ray::new(Vec3::zero(), Vec3::new(0, 0, -S));
    let rec = s.hit(&r, 0, 1_000_000_000).expect("hit");
    assert_eq!(rec.t, S / 2);
    assert_eq!((rec.point.x, rec.point.y, rec.point.z), (0, 0, -S / 2));
    assert!(rec.front_face);
    assert_eq!((rec.normal.x, rec.normal.y, rec.normal.z), (0, 0, S));
}

#[test]
fn sphere_hit_point_is_on_surface() {
    let s = Sphere::new(Vec3::new(0, 0, -S), S / 2, gray());
    let r = Ray::new(Vec3::zero(), Vec3::new(0, 0, -S));
    let rec = s.hit(&r, 0, 1_000_000_000).expect("hit");
    let pc = rec.point.sub(Vec3::new(0, 0, -S));
    let dist_sq = pc.length_squared();
    let r_sq = (S / 2) * (S / 2) / S;
    assert!((dist_sq - r_sq).abs() <= 2);
}

#[test]
fn sphere_hit_from_inside_flips_normal() {
    let s = Sphere::new(Vec3::new(0, 0, -S), S / 2, gray());
    let r = Ray::new(Vec3::new(0, 0, -S), Vec3::new(0, 0, -S));
    let rec = s.hit(&r, 0, 1_000_000_000).expect("hit");
    assert!(!rec.front_face);
    assert_eq!((rec.normal.x, rec.normal.y, rec.normal.z), (0, 0, S));
    assert!(rec.normal.dot(Vec3::new(0, 0, -S)) <= 0);
}

#[test]
fn sphere_miss_reports_nothing() {
    let s = Sphere::new(Vec3::new(0, 5 * S, -S), S / 2, gray());
    let r = Ray::new(Vec3::zero(), Vec3::new(0, 0, -S));
    assert!(s.hit(&r, 0, 1_000_000_000).is_none());
}

#[test]
fn scene_hit_is_order_independent() {
    let near = Sphere::new(Vec3::new(0, 0, -S), S / 2, gray());
    let far = Sphere::new(Vec3::new(0, 0, -3 * S), S / 2, gray());
    let r = Ray::new(Vec3::zero(), Vec3::new(0, 0, -S));
    let a = hit(&vec![near, far], &r, 1000, 1_000_000_000_000).expect("hit");
    let b = hit(&vec![far, near], &r, 1000, 1_000_000_000_000).expect("hit");
    assert_eq!(a.t, b.t);
    assert_eq!((a.point.x, a.point.y, a.point.z), (b.point.x, b.point.y, b.point.z));
    assert_eq!(a.t, S / 2);
}

#[test]
fn scene_hit_narrows_to_nearest() {
    let near = Sphere::new(Vec3::new(0, 0, -S), S / 2, gray());
    let far = Sphere::new(Vec3::new(0, 0, -3 * S), S / 2, gray());
    let rec = hit(&vec![far, near], &Ray::new(Vec3::zero(), Vec3::new(0, 0, -S)), 1000,
        1_000_000_000_000)
        .expect("hit");
    assert_eq!(rec.t, S / 2);
}

#[test]
fn empty_scene_never_hits() {
    let world: Vec<Sphere> = Vec::new();
    let r = Ray::new(Vec3::zero(), Vec3::new(0, 0, -S));
    assert!(hit(&world, &r, 1000, 1_000_000_000_000).is_none());
}

#[test]
fn metal_with_zero_fuzz_mirrors_exactly() {
    let m = Material::Metal { albedo: Vec3::new(900_000, 900_000, 900_000), fuzz: 0 };
    let s = Sphere::new(Vec3::new(0, 0, -S), S / 2, m);
    let r = Ray::new(Vec3::zero(), Vec3::new(0, 0, -S));
    let rec = s.hit(&r, 0, 1_000_000_000).expect("hit");
    let sc = m.scatter_with(&r, &rec, Vec3::new(0, 0, S), 0).expect("scatter");
    let d = sc.scattered.direction;
    assert_eq!((d.x, d.y, d.z), (0, 0, S));
    assert_eq!(sc.attenuation.x, 900_000);
}

#[test]
fn dielectric_with_unit_index_bends_nothing() {
    let m = Material::Dielectric { index_of_refraction: S };
    let s = Sphere::new(Vec3::new(0, 0, -S), S / 2, m);
    let r = Ray::new(Vec3::zero(), Vec3::new(0, 0, -S));
    let rec = s.hit(&r, 0, 1_000_000_000).expect("hit");
    let sc = m.scatter_with(&r, &rec, Vec3::new(0, 0, S), 0).expect("scatter");
    let d = sc.scattered.direction;
    assert_eq!((d.x, d.y, d.z), (0, 0, -S));
    assert_eq!((sc.attenuation.x, sc.attenuation.y, sc.attenuation.z), (S, S, S));
}

#[test]
fn lambertian_falls_back_to_normal_on_degenerate_sum() {
    let m = gray();
    let s = Sphere::new(Vec3::new(0, 0, -S), S / 2, m);
    let r = Ray::new(Vec3::zero(), Vec3::new(0, 0, -S));
    let rec = s.hit(&r, 0, 1_000_000_000).expect("hit");
    // the drawn unit vector exactly cancels the normal
    let sc = m.scatter_with(&r, &rec, Vec3::new(0, 0, -S), 0).expect("scatter");
    let d = sc.scattered.direction;
    assert_eq!((d.x, d.y, d.z), (0, 0, S));
}

#[test]
fn schlick_reflectance_at_normal_incidence() {
    assert_eq!(reflectance(S, 3 * S / 2), 40_000);
}

#[test]
fn center_pixel_matches_analytic_normal_shading() {
    let cam = Camera::new(
        S,
        1,
        S,
        1,
        Vec3::zero(),
        Vec3::new(0, 0, -S),
        Vec3::new(0, S, 0),
        S,
        0,
    );
    let ray = cam.get_ray_with(0, 0, 0, 0, 0, 0);
    assert_eq!((ray.direction.x, ray.direction.y, ray.direction.z), (0, 0, -S));
    let s = Sphere::new(Vec3::new(0, 0, -S), S / 2, gray());
    let rec = s.hit(&ray, 1000, 1_000_000_000_000).expect("hit");
    let shaded = rec.normal.add(Vec3::new(S, S, S)).scale(S / 2);
    assert_eq!((shaded.x, shaded.y, shaded.z), (S / 2, S / 2, S));
}

#[test]
fn image_height_rounds_to_nearest() {
    // width 4 at aspect 0.25 gives 16 rows; width 3 at aspect 2 gives
    // round(1.5) = 2; a skinny one-column image still has one row
    let mk = |aspect: i64, width: i64| {
        Camera::new(
            aspect,
            width,
            S / 2,
            1,
            Vec3::zero(),
            Vec3::new(0, 0, -S),
            Vec3::new(0, S, 0),
            S,
            0,
        )
        .image_height
    };
    assert_eq!(mk(250_000, 4), 16);
    assert_eq!(mk(2_000_000, 3), 2);
    assert_eq!(mk(S, 5), 5);
    assert_eq!(mk(4_000_000, 1), 1);
}

#[test]
fn camera_precomputes_orthonormal_basis() {
    let cam = Camera::new(
        S,
        4,
        S,
        1,
        Vec3::zero(),
        Vec3::new(0, 0, -S),
        Vec3::new(0, S, 0),
        S,
        0,
    );
    assert_eq!(cam.image_height, 4);
    assert_eq!((cam.w.x, cam.w.y, cam.w.z), (0, 0, S));
    assert_eq!((cam.u.x, cam.u.y, cam.u.z), (S, 0, 0));
    assert_eq!((cam.v.x, cam.v.y, cam.v.z), (0, S, 0));
    assert_eq!(cam.max_depth, 50);
}

#[test]
fn render_emits_one_line_per_pixel() {
    let cam = Camera::new(
        S,
        2,
        S,
        1,
        Vec3::zero(),
        Vec3::new(0, 0, -S),
        Vec3::new(0, S, 0),
        S,
        0,
    );
    let world = vec![Sphere::new(Vec3::new(0, 0, -S), S / 2, gray())];
    let buf = cam.render(&world);
    let lines = buf.iter().filter(|&&b| b == b'\n').count();
    assert_eq!(lines, 4);
    for &b in &buf {
        assert!(b.is_ascii_digit() || b == b' ' || b == b'\n');
    }
}

#[test]
fn degrees_to_radians_uses_pi_over_180() {
    assert_eq!(deg2rad(180 * S), 3_141_593);
    assert_eq!(deg2rad(90 * S), 1_570_796);
    assert_eq!(deg2rad(0), 0);
}

#[test]
fn samplers_stay_in_their_domains() {
    for _ in 0..50 {
        let f = random_fraction();
        assert!(0 <= f && f <= S);
        let v = random_in_unit_sphere();
        assert!(v.length_squared() < S);
        let u = random_unit_vector();
        assert!(u.x.abs() <= 3 * S && u.y.abs() <= 3 * S && u.z.abs() <= 3 * S);
        let d = random_in_unit_disk();
        assert_eq!(d.z, 0);
        assert!(d.length_squared() < S);
        let n = Vec3::new(0, S, 0);
        let h = random_on_hemisphere(&n);
        assert!(h.dot(n) >= 0);
    }
}

#[test]
fn vector_algebra_is_exact() {
    let a = Vec3::new(S, 2 * S, 3 * S);
    let b = Vec3::new(4 * S, 5 * S, 6 * S);
    assert_eq!(a.dot(b), 32 * S);
    let x = Vec3::new(S, 0, 0);
    let y = Vec3::new(0, S, 0);
    let c = x.cross(y);
    assert_eq!((c.x, c.y, c.z), (0, 0, S));
    let u = Vec3::new(3 * S, 0, 0).unit_vector();
    assert_eq!((u.x, u.y, u.z), (S, 0, 0));
}
