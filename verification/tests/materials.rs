use raytrace::color::Color;
use raytrace::fixed::ONE;
use raytrace::material::{Dialectric, Lambertian, Material, Metal};
use raytrace::ray::Ray;
use raytrace::rtweekend::Sampler;
use raytrace::sphere::HitRecord;
use raytrace::vec3::{reflect, NearZero, Unit, Vec3};

fn v(x: i64, y: i64, z: i64) -> Vec3 {
    Vec3 { x, y, z }
}

fn hit_up(mat: Material) -> HitRecord {
    HitRecord { p: v(0, 0, 0), normal: v(0, 0, ONE), t: ONE, front_face: true, mat }
}

#[test]
fn lambertian_scatter_direction_is_never_zero() {
    let mat = Material::Lambertian(Lambertian::new(Color { x: ONE / 2, y: ONE / 2, z: ONE / 2 }));
    let rec = hit_up(mat);
    let r_in = Ray { orig: v(0, 0, ONE), dir: v(0, 0, -ONE) };
    // a draw that cancels the normal exactly falls back to the normal itself
    let cancel = v(0, 0, -ONE);
    let (att, scattered) = mat.scatter_with(&r_in, &rec, cancel, 0).expect("always scatters");
    assert_eq!(scattered.dir, rec.normal);
    assert!(!scattered.dir.near_zero());
    assert_eq!(att, Color { x: ONE / 2, y: ONE / 2, z: ONE / 2 });
    // an ordinary draw adds to the normal
    let (_, scattered2) = mat.scatter_with(&r_in, &rec, v(0, 0, ONE), 0).expect("always scatters");
    assert_eq!(scattered2.dir, v(0, 0, 2 * ONE));
    assert!(!scattered2.dir.near_zero());
}

#[test]
fn metal_with_zero_fuzz_reflects_exactly() {
    let mat = Material::Metal(Metal::new(Color { x: ONE, y: ONE, z: ONE }, 0));
    let rec = hit_up(mat);
    let r_in = Ray { orig: v(-ONE, 0, ONE), dir: v(ONE, 0, -ONE) };
    let ruv = v(0, 0, ONE);  // must be ignored at fuzz zero
    let (_, scattered) = mat.scatter_with(&r_in, &rec, ruv, 0).expect("reflection leaves surface");
    assert_eq!(scattered.dir, reflect(r_in.dir.unit(), rec.normal));
    assert_eq!(scattered.dir, v(46341, 0, 46341));
    assert_eq!(scattered.orig, rec.p);
}

#[test]
fn metal_absorbs_reflections_into_the_surface() {
    let mat = Material::Metal(Metal::new(Color { x: ONE, y: ONE, z: ONE }, 0));
    let rec = hit_up(mat);
    // a ray leaving along the normal reflects to below the surface
    let r_in = Ray { orig: v(0, 0, -ONE), dir: v(0, 0, ONE) };
    assert!(mat.scatter_with(&r_in, &rec, v(0, 0, ONE), 0).is_none());
}

#[test]
fn dielectric_with_unit_index_passes_head_on_rays_undeviated() {
    let mat = Material::Dialectric(Dialectric::new(ONE));
    let rec = hit_up(mat);
    let r_in = Ray { orig: v(0, 0, ONE), dir: v(0, 0, -ONE) };
    let (att, scattered) = mat.scatter_with(&r_in, &rec, v(0, 0, ONE), 0).expect("always scatters");
    assert_eq!(scattered.dir, v(0, 0, -ONE));
    assert_eq!(att, Color { x: ONE, y: ONE, z: ONE });
}

#[test]
fn dielectric_with_unit_index_refracts_obliquely_within_tolerance() {
    let mat = Material::Dialectric(Dialectric::new(ONE));
    let rec = hit_up(mat);
    let r_in = Ray { orig: v(-ONE, 0, ONE), dir: v(ONE, 0, -ONE) };
    // a draw of almost one forces the refraction branch
    let (_, scattered) = mat.scatter_with(&r_in, &rec, v(0, 0, ONE), ONE - 1).expect(
        "always scatters",
    );
    let unit_in = r_in.dir.unit();
    assert!((scattered.dir.x - unit_in.x).abs() <= 2);
    assert!((scattered.dir.y - unit_in.y).abs() <= 2);
    assert!((scattered.dir.z - unit_in.z).abs() <= 2);
}

#[test]
fn dielectric_reflects_at_total_internal_reflection() {
    // leaving glass (back face) at a grazing angle: ratio * sin exceeds one
    let mat = Material::Dialectric(Dialectric::new(3 * ONE / 2));
    let rec = HitRecord {
        p: v(0, 0, 0),
        normal: v(0, 0, ONE),
        t: ONE,
        front_face: false,
        mat,
    };
    let r_in = Ray { orig: v(-ONE, 0, ONE), dir: v(ONE, 0, -ONE) };
    let (_, scattered) = mat.scatter_with(&r_in, &rec, v(0, 0, ONE), ONE - 1).expect(
        "always scatters",
    );
    assert_eq!(scattered.dir, reflect(r_in.dir.unit(), rec.normal));
}

#[test]
fn sampled_scatter_matches_deterministic_core_under_constant_draws() {
    let mat = Material::Lambertian(Lambertian::new(Color { x: ONE, y: 0, z: 0 }));
    let rec = hit_up(mat);
    let r_in = Ray { orig: v(0, 0, ONE), dir: v(0, 0, -ONE) };
    let smp = Sampler::constant(0);
    // all-zero draws make the unit draw the fallback axis
    let (att, scattered) = mat.scatter(&r_in, &rec, &smp).expect("always scatters");
    assert_eq!(att, Color { x: ONE, y: 0, z: 0 });
    assert_eq!(scattered.dir, v(0, 0, 2 * ONE));
}
