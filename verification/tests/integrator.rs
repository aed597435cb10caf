use raytrace::camera::{Camera, Initialize, Render};
use raytrace::color::Color;
use raytrace::fixed::ONE;
use raytrace::material::{Lambertian, Material};
use raytrace::ray::Ray;
use raytrace::rtweekend::Sampler;
use raytrace::sphere::{Add, HittableList, HittableObject, New, Sphere};
use raytrace::vec3::Vec3;

fn v(x: i64, y: i64, z: i64) -> Vec3 {
    Vec3 { x, y, z }
}

fn gray() -> Material {
    Material::Lambertian(Lambertian::new(Color { x: ONE / 2, y: ONE / 2, z: ONE / 2 }))
}

/// The reference scene of the regression test: a small sphere resting on a
/// huge ground sphere.
fn golden_world() -> HittableList {
    let mut world: HittableList = New::new();
    world.add(HittableObject::Sphere(Sphere { center: v(0, 0, -ONE), radius: ONE / 2, mat: gray() }));
    world.add(HittableObject::Sphere(Sphere {
        center: v(0, -100 * ONE - ONE / 2, -ONE),
        radius: 100 * ONE,
        mat: gray(),
    }));
    world
}

#[test]
fn ray_color_with_zero_depth_is_black() {
    let cam: Camera = New::new();
    let world = golden_world();
    let smp = Sampler::constant(0);
    for dir in [v(0, 0, -ONE), v(ONE, 2 * ONE, 3 * ONE), v(0, -ONE, 0)] {
        let r = Ray { orig: v(0, 0, 0), dir };
        assert_eq!(cam.ray_color(r, 0, &world, &smp), v(0, 0, 0));
    }
}

#[test]
fn ray_color_of_a_miss_is_the_sky_gradient() {
    let cam: Camera = New::new();
    let world: HittableList = New::new();
    let smp = Sampler::constant(0);
    // a level ray: the blend factor is one half
    let r = Ray { orig: v(0, 0, 0), dir: v(0, 0, -ONE) };
    assert_eq!(cam.ray_color(r, 5, &world, &smp), v(49152, 55705, 65536));
    // straight up: all sky blue
    let up = Ray { orig: v(0, 0, 0), dir: v(0, ONE, 0) };
    assert_eq!(cam.ray_color(up, 5, &world, &smp), v(ONE / 2, 45875, ONE));
}

#[test]
fn ray_color_of_a_degenerate_ray_is_black() {
    let cam: Camera = New::new();
    let world = golden_world();
    let smp = Sampler::constant(0);
    let r = Ray { orig: v(0, 0, 0), dir: v(0, 0, 0) };
    assert_eq!(cam.ray_color(r, 5, &world, &smp), v(0, 0, 0));
}

#[test]
fn single_bounce_hit_is_black_because_the_bounce_budget_ends() {
    // with depth one, every hit scatters into a depth-zero (black) bounce
    let cam: Camera = New::new();
    let world = golden_world();
    let smp = Sampler::constant(0);
    let r = Ray { orig: v(0, 0, 0), dir: v(0, 0, -ONE) };
    assert_eq!(cam.ray_color(r, 1, &world, &smp), v(0, 0, 0));
}

#[test]
fn golden_single_sphere_render() {
    // the whole pipeline under constant-zero draws is deterministic
    let mut cam: Camera = New::new();
    cam.image_width = 4;
    cam.samples_per_pixel = 1;
    cam.max_depth = 1;
    let world = golden_world();
    let smp = Sampler::constant(0);
    let out = cam.render(&world, &smp);
    let expected = "P3\n4 4\n255\n\
                    199 223 255\n195 221 255\n193 220 255\n195 221 255\n\
                    209 228 255\n206 227 255\n0 0 0\n206 227 255\n\
                    221 236 255\n0 0 0\n0 0 0\n0 0 0\n\
                    0 0 0\n0 0 0\n0 0 0\n0 0 0\n";
    assert_eq!(String::from_utf8(out).unwrap(), expected);
}

#[test]
fn initialize_derives_the_documented_camera_state() {
    let mut cam: Camera = New::new();
    cam.image_width = 400;
    cam.aspect_ratio = 116508;  // 16:9 in fixed point
    cam.initialize();
    assert_eq!(cam.image_height, 225);
    assert_eq!(cam.pixel_samples_scale, ONE / 10);
    assert_eq!(cam.center, cam.lookfrom);
    // looking down -z with y up: the basis is the world basis
    assert_eq!(cam.w, v(0, 0, ONE));
    assert_eq!(cam.u, v(ONE, 0, 0));
    assert_eq!(cam.v, v(0, ONE, 0));
    // the lens is disabled
    assert_eq!(cam.defocus_disk_u, v(0, 0, 0));
    assert_eq!(cam.defocus_disk_v, v(0, 0, 0));
}

#[test]
fn extreme_aspect_ratio_clamps_image_height_to_one() {
    let mut cam: Camera = New::new();
    cam.image_width = 1;
    cam.aspect_ratio = 1000 * ONE;
    let world: HittableList = New::new();
    let smp = Sampler::constant(0);
    let out = String::from_utf8(cam.render(&world, &smp)).unwrap();
    assert_eq!(cam.image_height, 1);
    assert!(out.starts_with("P3\n1 1\n255\n"));
    // the header's three lines plus exactly one pixel line
    assert_eq!(out.lines().count(), 4);
}

#[test]
fn pinhole_rays_start_at_the_camera_center() {
    let mut cam: Camera = New::new();
    cam.image_width = 4;
    cam.initialize();
    let smp = Sampler::constant(0);
    let r = cam.get_ray(1, 2, &smp);
    assert_eq!(r.orig, cam.center);
    // a deterministic jitter of -1/2 pixel on both axes
    let r2 = cam.ray_for(1, 2, v(-ONE / 2, -ONE / 2, 0), v(0, 0, 0));
    assert_eq!(r, r2);
}
