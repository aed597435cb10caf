use raytrace::fixed::{fx_add, fx_div, fx_mul, fx_sqrt, fx_sub, ONE};
use raytrace::rtweekend::Sampler;
use raytrace::vec3::{
    cross, dot, element_wise_mul, random, random_range, random_unit_vector, reflect, Cross,
    NearZero, Unit, Vec3,
};

fn v(x: i64, y: i64, z: i64) -> Vec3 {
    Vec3 { x, y, z }
}

#[test]
fn fixed_point_arithmetic_exact() {
    assert_eq!(fx_add(ONE, ONE), 2 * ONE);
    assert_eq!(fx_sub(ONE, 3 * ONE), -2 * ONE);
    assert_eq!(fx_mul(2 * ONE, 3 * ONE), 6 * ONE);
    assert_eq!(fx_mul(ONE / 2, ONE / 2), ONE / 4);
    assert_eq!(fx_div(ONE, 2 * ONE), ONE / 2);
    assert_eq!(fx_div(-ONE, 2 * ONE), -(ONE / 2));
    assert_eq!(fx_sqrt(ONE), ONE);
    assert_eq!(fx_sqrt(4 * ONE), 2 * ONE);
    assert_eq!(fx_sqrt(-5), 0);
}

#[test]
fn fixed_point_saturates_instead_of_wrapping() {
    assert_eq!(fx_add(i64::MAX, ONE), i64::MAX);
    assert_eq!(fx_sub(i64::MIN, ONE), i64::MIN);
    assert_eq!(fx_mul(i64::MAX, 2 * ONE), i64::MAX);
    assert_eq!(fx_mul(i64::MAX, -2 * ONE), i64::MIN);
}

#[test]
fn vector_arithmetic_exact() {
    let a = v(ONE, 2 * ONE, 3 * ONE);
    let b = v(4 * ONE, 5 * ONE, 6 * ONE);
    assert_eq!(a.add(b), v(5 * ONE, 7 * ONE, 9 * ONE));
    assert_eq!(b.sub(a), v(3 * ONE, 3 * ONE, 3 * ONE));
    assert_eq!(a.neg(), v(-ONE, -2 * ONE, -3 * ONE));
    assert_eq!(a.mul(2 * ONE), v(2 * ONE, 4 * ONE, 6 * ONE));
    assert_eq!(a.div(2 * ONE), v(ONE / 2, ONE, 3 * ONE / 2));
    assert_eq!(dot(a, b), 32 * ONE);
    assert_eq!(cross(v(ONE, 0, 0), v(0, ONE, 0)), v(0, 0, ONE));
    assert_eq!(a.cross(b), v(-3 * ONE, 6 * ONE, -3 * ONE));
    assert_eq!(
        element_wise_mul(a, b),
        v(4 * ONE, 10 * ONE, 18 * ONE)
    );
    assert_eq!(a.length_squared(), 14 * ONE);
}

#[test]
fn unit_of_nonzero_vector_has_length_one_within_tolerance() {
    // a 3-4-5 triangle, a skewed vector, and an axis
    for w in [v(3 * ONE, 4 * ONE, 0), v(ONE, 2 * ONE, -3 * ONE), v(0, 0, 7 * ONE)] {
        let u = w.unit();
        let len = u.length();
        assert!(
            (len - ONE).abs() <= 4,
            "unit length {} strays from one",
            len
        );
    }
    assert_eq!(v(3 * ONE, 4 * ONE, 0).unit(), v(39321, 52428, 0));
    // normalization keeps each component's sign
    assert_eq!(v(-3 * ONE, 4 * ONE, 0).unit(), v(-39321, 52428, 0));
}

#[test]
fn near_zero_detects_only_the_zero_vector() {
    assert!(v(0, 0, 0).near_zero());
    assert!(!v(1, 0, 0).near_zero());
    assert!(!v(0, 0, -1).near_zero());
}

#[test]
fn reflect_mirrors_about_the_normal() {
    let incoming = v(ONE, 0, -ONE).unit();
    assert_eq!(incoming, v(46341, 0, -46341));
    let reflected = reflect(incoming, v(0, 0, ONE));
    assert_eq!(reflected, v(46341, 0, 46341));
    // the normal component flips, the tangential component stays
    assert_eq!(reflected.x, incoming.x);
    assert_eq!(reflected.z, -incoming.z);
}

#[test]
fn random_vectors_respect_their_bounds() {
    let smp = Sampler::entropy();
    for _ in 0..50 {
        let r = random(&smp);
        assert!(0 <= r.x && r.x < ONE);
        assert!(0 <= r.y && r.y < ONE);
        assert!(0 <= r.z && r.z < ONE);
        let rr = random_range(-ONE, ONE, &smp);
        assert!(-ONE <= rr.x && rr.x < ONE);
        let u = random_unit_vector(&smp);
        assert!(!u.near_zero());
        // the sampler rejects short draws, so the squared length of a unit
        // draw provably stays within 64 raw units of one
        assert!((u.length_squared() - ONE).abs() <= 64);
        assert!((u.length() - ONE).abs() <= 64);
    }
}

#[test]
fn constant_sampler_makes_draws_reproducible() {
    let smp = Sampler::constant(0);
    assert_eq!(smp.next_unit(), 0);
    // all-zero draws reject every ball sample, so the fallback axis comes back
    assert_eq!(random_unit_vector(&smp), v(0, 0, ONE));
    let smp2 = Sampler::constant(ONE / 2);
    assert_eq!(smp2.next_unit(), ONE / 2);
}
