use raytrace::fixed::ONE;
use raytrace::rtweekend::{degrees_to_radians, random_double, random_double_range, Sampler, PI};
use raytrace::vec3::{
    div, dot, mul, random_in_unit_disk, random_on_hemisphere, random_unit_vector, refract,
    NearZero, Unit, Vec3,
};

fn v(x: i64, y: i64, z: i64) -> Vec3 {
    Vec3 { x, y, z }
}

#[test]
fn degrees_scale_linearly_into_radians() {
    assert_eq!(degrees_to_radians(180 * ONE), PI);
    assert_eq!(degrees_to_radians(90 * ONE), 102943);
    assert_eq!(degrees_to_radians(0), 0);
    assert_eq!(degrees_to_radians(-180 * ONE), -PI);
}

#[test]
fn scalar_draws_stay_in_their_ranges() {
    let smp = Sampler::entropy();
    for _ in 0..100 {
        let u = random_double(&smp);
        assert!(0 <= u && u < ONE);
        let r = random_double_range(-2 * ONE, 3 * ONE, &smp);
        assert!(-2 * ONE <= r && r < 3 * ONE);
    }
    let fixed = Sampler::constant(ONE - 1);
    assert_eq!(random_double(&fixed), ONE - 1);
}

#[test]
fn hemisphere_draws_point_out_of_the_surface_or_flip() {
    let smp = Sampler::entropy();
    let normal = v(0, 0, ONE);
    for _ in 0..50 {
        let u = random_on_hemisphere(&normal, &smp);
        assert!(!u.near_zero());
        assert!(dot(u, normal) >= 0);
    }
    // unit draws keep every component within two units
    for _ in 0..50 {
        let u = random_unit_vector(&smp);
        assert!(u.x.abs() <= 2 * ONE && u.y.abs() <= 2 * ONE && u.z.abs() <= 2 * ONE);
    }
    // with all-zero draws the fallback axis already points along the normal
    let fixed = Sampler::constant(0);
    assert_eq!(random_on_hemisphere(&normal, &fixed), v(0, 0, ONE));
    // against the opposite normal the same draw flips
    assert_eq!(random_on_hemisphere(&v(0, 0, -ONE), &fixed), v(0, 0, -ONE));
}

#[test]
fn unit_disk_draws_stay_in_the_flat_disk() {
    let smp = Sampler::entropy();
    for _ in 0..50 {
        let p = random_in_unit_disk(&smp);
        assert_eq!(p.z, 0);
        assert!(p.length_squared() < ONE);
    }
}

#[test]
fn refraction_follows_snells_decomposition() {
    let unit_in = v(ONE, 0, -ONE).unit();
    let n = v(0, 0, ONE);
    // with no index change the direction survives to within rounding
    assert_eq!(refract(unit_in, n, ONE), v(46341, 0, -46340));
    // entering a denser medium bends toward the normal
    let bent = refract(unit_in, n, 2 * ONE / 3);
    assert_eq!(bent, v(30893, 0, -57798));
    assert!(dot(bent, n).abs() > dot(unit_in, n).abs());
}

#[test]
fn free_scaling_functions_match_the_methods() {
    let a = v(ONE, 2 * ONE, 3 * ONE);
    assert_eq!(mul(a, ONE / 2), v(ONE / 2, ONE, 3 * ONE / 2));
    assert_eq!(div(a, 2 * ONE), v(ONE / 2, ONE, 3 * ONE / 2));
    assert_eq!(mul(a, ONE / 2), a.mul(ONE / 2));
    assert_eq!(div(a, 2 * ONE), a.div(2 * ONE));
}
