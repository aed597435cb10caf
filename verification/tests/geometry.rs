use raytrace::color::Color;
use raytrace::fixed::ONE;
use raytrace::interval::Interval;
use raytrace::material::{Lambertian, Material};
use raytrace::ray::{Origin, Ray};
use raytrace::rtweekend::INF;
use raytrace::sphere::{Add, Clear, Hit, HitRecord, HittableList, HittableObject, New, Sphere};
use raytrace::vec3::Vec3;

fn v(x: i64, y: i64, z: i64) -> Vec3 {
    Vec3 { x, y, z }
}

fn gray() -> Material {
    Material::Lambertian(Lambertian { albedo: Color { x: ONE / 2, y: ONE / 2, z: ONE / 2 } })
}

fn sphere_at(center: Vec3, radius: i64, mat: Material) -> Sphere {
    Sphere { center, radius, mat }
}

fn window(min: i64, max: i64) -> Interval {
    Interval { min, max }
}

#[test]
fn head_on_hit_parameter_is_distance_minus_radius() {
    // a sphere of radius 1/2 two units down the ray: t = 2 - 1/2
    let s = sphere_at(v(0, 0, -2 * ONE), ONE / 2, gray());
    let r = Ray { orig: v(0, 0, 0), dir: v(0, 0, -ONE) };
    let rec = s.hit(r, window(65, INF)).expect("must hit");
    assert_eq!(rec.t, 3 * ONE / 2);
    assert_eq!(rec.p, v(0, 0, -3 * ONE / 2));
    assert_eq!(rec.normal, v(0, 0, ONE));
    assert!(rec.front_face);

    // radius 1, ten units away: t = 9
    let far = sphere_at(v(0, 0, -10 * ONE), ONE, gray());
    let rec2 = far.hit(r, window(65, INF)).expect("must hit");
    assert_eq!(rec2.t, 9 * ONE);
}

#[test]
fn sphere_hit_returns_nearest_root_inside_the_interval() {
    // unit sphere at x=3 hit along +x: roots at t=2 and t=4
    let s = sphere_at(v(3 * ONE, 0, 0), ONE, gray());
    let r = Ray { orig: v(0, 0, 0), dir: v(ONE, 0, 0) };
    let near = s.hit(r, window(65, INF)).expect("must hit");
    assert_eq!(near.t, 2 * ONE);
    // an interval that excludes the near root takes the far one
    let far = s.hit(r, window(3 * ONE, INF)).expect("must hit far root");
    assert_eq!(far.t, 4 * ONE);
    assert!(!far.front_face);
    // an interval that excludes both reports no hit
    assert!(s.hit(r, window(65, 3 * ONE / 2)).is_none());
    // a ray that points away misses
    let away = Ray { orig: v(0, 0, 0), dir: v(-ONE, 0, 0) };
    assert!(s.hit(away, window(65, INF)).is_none());
}

#[test]
fn list_hit_finds_nearest_regardless_of_insertion_order() {
    let red = Material::Lambertian(Lambertian { albedo: Color { x: ONE, y: 0, z: 0 } });
    let a = HittableObject::Sphere(sphere_at(v(3 * ONE, 0, 0), ONE, red));
    let b = HittableObject::Sphere(sphere_at(v(5 * ONE, 0, 0), ONE, gray()));
    let c = HittableObject::Sphere(sphere_at(v(7 * ONE, 0, 0), ONE, gray()));
    let r = Ray { orig: v(0, 0, 0), dir: v(ONE, 0, 0) };
    for order in [[a, b, c], [c, b, a], [b, a, c], [c, a, b]] {
        let mut world: HittableList = New::new();
        for o in order {
            world.add(o);
        }
        let rec = world.hit(r, window(65, INF)).expect("must hit");
        assert_eq!(rec.t, 2 * ONE);
        assert_eq!(rec.mat, red);
    }
}

#[test]
fn empty_and_cleared_lists_hit_nothing() {
    let r = Ray { orig: v(0, 0, 0), dir: v(ONE, 0, 0) };
    let mut world: HittableList = New::new();
    assert!(world.hit(r, window(65, INF)).is_none());
    world.add(HittableObject::Sphere(sphere_at(v(3 * ONE, 0, 0), ONE, gray())));
    assert!(world.hit(r, window(65, INF)).is_some());
    world.clear();
    assert!(world.hit(r, window(65, INF)).is_none());
}

#[test]
fn ray_evaluates_points_along_itself() {
    let r = Ray { orig: v(ONE, 0, 0), dir: v(0, 2 * ONE, 0) };
    assert_eq!(r.at(ONE / 2), v(ONE, ONE, 0));
    assert_eq!(r.origin(), v(ONE, 0, 0));
    assert_eq!(r.direction(), v(0, 2 * ONE, 0));
    assert_eq!(Ray::new(v(1, 2, 3), v(4, 5, 6)), r2(v(1, 2, 3), v(4, 5, 6)));
}

fn r2(orig: Vec3, dir: Vec3) -> Ray {
    Ray { orig, dir }
}

#[test]
fn interval_membership_and_clamp() {
    let itv = Interval::new(0, ONE);
    assert!(itv.contains(0) && itv.contains(ONE) && itv.contains(ONE / 2));
    assert!(!itv.contains(-1) && !itv.contains(ONE + 1));
    assert!(itv.surrounds(ONE / 2));
    assert!(!itv.surrounds(0) && !itv.surrounds(ONE));
    assert_eq!(itv.clamp(-5), 0);
    assert_eq!(itv.clamp(ONE + 5), ONE);
    assert_eq!(itv.clamp(7), 7);
    assert_eq!(itv.size(), ONE);
}

#[test]
fn sphere_constructor_records_center_radius_and_material() {
    let red = Material::Lambertian(Lambertian { albedo: Color { x: ONE, y: 0, z: 0 } });
    let s = Sphere::new(v(ONE, 2 * ONE, 3 * ONE), ONE / 2, red);
    assert_eq!(s.center, v(ONE, 2 * ONE, 3 * ONE));
    assert_eq!(s.radius, ONE / 2);
    assert_eq!(s.mat, red);
    // the record of a hit carries that material out
    let r = Ray { orig: v(ONE, 2 * ONE, 0), dir: v(0, 0, ONE) };
    let rec = s.hit(r, window(65, raytrace::rtweekend::INF)).expect("must hit");
    assert_eq!(rec.mat, red);
}

#[test]
fn fresh_hit_record_is_blank() {
    let rec: HitRecord = New::new();
    assert_eq!(rec.t, 0);
    assert_eq!(rec.p, v(0, 0, 0));
    assert_eq!(rec.normal, v(0, 0, 0));
    assert!(!rec.front_face);
}

#[test]
fn set_face_normal_orients_toward_the_ray() {
    let mut rec: HitRecord = New::new();
    let r = Ray { orig: v(0, 0, 0), dir: v(0, 0, -ONE) };
    rec.set_face_normal(r, v(0, 0, ONE));
    assert!(rec.front_face);
    assert_eq!(rec.normal, v(0, 0, ONE));
    rec.set_face_normal(r, v(0, 0, -ONE));
    assert!(!rec.front_face);
    assert_eq!(rec.normal, v(0, 0, ONE));
}
