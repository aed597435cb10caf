//! Material scattering: Lambertian diffuse, metal with fuzz, and a dielectric
//! with Schlick-approximated reflectance.
//!
//! Each material has a deterministic core, `scatter_with`, that takes the
//! random quantities (a unit direction and a unit draw) as arguments and is
//! specified exactly; `scatter` draws them from a [`Sampler`] and calls it.

use crate::color::Color;
use crate::fixed::{
    fx_add, fx_div, fx_mul, fx_sqrt, fx_sub, sat_add, sat_div, sat_mul, sat_sqrt, sat_sub, ONE,
};
use crate::ray::Ray;
use crate::rtweekend::Sampler;
use crate::sphere::HitRecord;
use crate::vec3::{
    random_unit_vector, reflect, refract, sv_add, sv_dot, sv_len_sq, sv_near_zero, sv_neg,
    sv_reflect, sv_refract, sv_scale, sv_unit, unit_vector_of, NearZero, Unit, Vec3,
};
use vstd::prelude::*;

verus! {

#[derive(Clone, Copy, PartialEq, Eq, Structural, Debug)]
pub struct Lambertian {
    pub albedo: Color,
}

#[derive(Clone, Copy, PartialEq, Eq, Structural, Debug)]
pub struct Metal {
    pub albedo: Color,
    pub fuzz: i64,
}

#[derive(Clone, Copy, PartialEq, Eq, Structural, Debug)]
pub struct Dialectric {
    pub ior: i64,
}

#[derive(Clone, Copy, PartialEq, Eq, Structural, Debug)]
pub enum Material {
    Lambertian(Lambertian),
    Metal(Metal),
    Dialectric(Dialectric),
}

/// What scattering needs of a material: a dielectric must have a positive
/// index of refraction (the refraction ratio divides by it).
pub open spec fn material_wf(m: Material) -> bool {
    match m {
        Material::Dialectric(d) => d.ior > 0,
        _ => true,
    }
}

/// The attenuation a material can apply is a color: every albedo component
/// lies in `[0, 1]` (a dielectric never tints, so it has nothing to bound).
pub open spec fn material_albedo_unit(m: Material) -> bool {
    match m {
        Material::Lambertian(l) => 0 <= l.albedo.x <= ONE && 0 <= l.albedo.y <= ONE && 0
            <= l.albedo.z <= ONE,
        Material::Metal(mt) => 0 <= mt.albedo.x <= ONE && 0 <= mt.albedo.y <= ONE && 0
            <= mt.albedo.z <= ONE,
        Material::Dialectric(_) => true,
    }
}

/// Diffuse bounce: the unit draw added to the surface normal, with the normal
/// itself as fallback when the sum cancels to nothing.  Always scatters.
pub open spec fn lambertian_scatter_spec(m: Lambertian, rec: HitRecord, ruv: Vec3) -> (Color, Ray) {
    let d = sv_add(rec.normal, ruv);
    let dir = if sv_near_zero(d) {
        rec.normal
    } else {
        d
    };
    (m.albedo, Ray { orig: rec.p, dir })
}

/// Mirror bounce perturbed by `fuzz` times the unit draw; absorbed when the
/// perturbed direction no longer leaves the surface.
pub open spec fn metal_scatter_spec(m: Metal, r_in: Ray, rec: HitRecord, ruv: Vec3) -> Option<
    (Color, Ray),
>
    recommends
        sv_len_sq(r_in.dir) > 0,
{
    let reflected = sv_reflect(sv_unit(r_in.dir), rec.normal);
    let dir = sv_add(reflected, sv_scale(ruv, m.fuzz as int));
    if sv_dot(dir, rec.normal) > 0 {
        Some((m.albedo, Ray { orig: rec.p, dir }))
    } else {
        None
    }
}

/// `x` to the fifth power in the fixed-point algebra.
pub open spec fn pow5(x: int) -> int {
    sat_mul(sat_mul(sat_mul(sat_mul(x, x), x), x), x)
}

/// Schlick's reflectance approximation.
pub open spec fn schlick(cosine: int, ref_idx: int) -> int
    recommends
        sat_add(ONE as int, ref_idx) != 0,
{
    let r0 = sat_div(sat_sub(ONE as int, ref_idx), sat_add(ONE as int, ref_idx));
    let r0sq = sat_mul(r0, r0);
    sat_add(r0sq, sat_mul(sat_sub(ONE as int, r0sq), pow5(sat_sub(ONE as int, cosine))))
}

/// The ratio of refraction indices across the struck face.
pub open spec fn dielectric_ratio(m: Dialectric, front_face: bool) -> int
    recommends
        m.ior != 0,
{
    if front_face {
        sat_div(ONE as int, m.ior as int)
    } else {
        m.ior as int
    }
}

/// Dielectric bounce: refract by Snell's law unless total internal reflection
/// or a reflectance draw forces a mirror bounce.  Never absorbs, never tints.
pub open spec fn dielectric_scatter_spec(m: Dialectric, r_in: Ray, rec: HitRecord, draw: int) -> (
    Color,
    Ray,
)
    recommends
        sv_len_sq(r_in.dir) > 0,
        m.ior > 0,
{
    let ratio = dielectric_ratio(m, rec.front_face);
    let unit_direction = sv_unit(r_in.dir);
    let c = sv_dot(sv_neg(unit_direction), rec.normal);
    let cos_theta = if c < ONE as int {
        c
    } else {
        ONE as int
    };
    let sin_theta = sat_sqrt(sat_sub(ONE as int, sat_mul(cos_theta, cos_theta)));
    let cannot_refract = sat_mul(ratio, sin_theta) > ONE as int;
    let dir = if cannot_refract || schlick(cos_theta, ratio) > draw {
        sv_reflect(unit_direction, rec.normal)
    } else {
        sv_refract(unit_direction, rec.normal, ratio)
    };
    (Vec3 { x: ONE, y: ONE, z: ONE }, Ray { orig: rec.p, dir })
}

/// The scattering rule of a material, as a function of the hit, the random
/// unit direction and the random unit draw.
pub open spec fn scatter_spec(m: Material, r_in: Ray, rec: HitRecord, ruv: Vec3, draw: int) -> Option<
    (Color, Ray),
>
    recommends
        material_wf(m),
        sv_len_sq(r_in.dir) > 0,
{
    match m {
        Material::Lambertian(l) => Some(lambertian_scatter_spec(l, rec, ruv)),
        Material::Metal(mt) => metal_scatter_spec(mt, r_in, rec, ruv),
        Material::Dialectric(d) => Some(dielectric_scatter_spec(d, r_in, rec, draw)),
    }
}

impl Lambertian {
    pub fn new(a: Color) -> (r: Lambertian)
        ensures
            r == (Lambertian { albedo: a }),
    {
        Lambertian { albedo: a }
    }
}

impl Metal {
    pub fn new(a: Color, f: i64) -> (r: Metal)
        ensures
            r == (Metal { albedo: a, fuzz: f }),
    {
        Metal { albedo: a, fuzz: f }
    }
}

impl Dialectric {
    pub fn new(i: i64) -> (r: Dialectric)
        ensures
            r == (Dialectric { ior: i }),
    {
        Dialectric { ior: i }
    }
}

fn lambertian_scatter(m: &Lambertian, rec: &HitRecord, ruv: Vec3) -> (res: (Color, Ray))
    ensures
        res == lambertian_scatter_spec(*m, *rec, ruv),
{
    let d: Vec3 = rec.normal.add(ruv);
    let scatter_direction: Vec3 = if d.near_zero() {
        rec.normal
    } else {
        d
    };
    (m.albedo, Ray { orig: rec.p, dir: scatter_direction })
}

fn metal_scatter(m: &Metal, r_in: &Ray, rec: &HitRecord, ruv: Vec3) -> (res: Option<(Color, Ray)>)
    requires
        sv_len_sq(r_in.dir) > 0,
    ensures
        res == metal_scatter_spec(*m, *r_in, *rec, ruv),
{
    let reflected: Vec3 = reflect(r_in.dir.unit(), rec.normal);
    let dir: Vec3 = reflected.add(ruv.mul(m.fuzz));
    if dir.dot(rec.normal) > 0 {
        Some((m.albedo, Ray { orig: rec.p, dir }))
    } else {
        None
    }
}

fn reflectance(cosine: i64, ref_idx: i64) -> (r: i64)
    requires
        sat_add(ONE as int, ref_idx as int) != 0,
    ensures
        r as int == schlick(cosine as int, ref_idx as int),
{
    let r0: i64 = fx_div(fx_sub(ONE, ref_idx), fx_add(ONE, ref_idx));
    let r0sq: i64 = fx_mul(r0, r0);
    let omc: i64 = fx_sub(ONE, cosine);
    let p5: i64 = fx_mul(fx_mul(fx_mul(fx_mul(omc, omc), omc), omc), omc);
    fx_add(r0sq, fx_mul(fx_sub(ONE, r0sq), p5))
}

fn dielectric_scatter(m: &Dialectric, r_in: &Ray, rec: &HitRecord, draw: i64) -> (res: (Color, Ray))
    requires
        sv_len_sq(r_in.dir) > 0,
        m.ior > 0,
    ensures
        res == dielectric_scatter_spec(*m, *r_in, *rec, draw as int),
{
    let ratio: i64 = if rec.front_face {
        fx_div(ONE, m.ior)
    } else {
        m.ior
    };
    proof {
        lemma_dielectric_ratio_nonneg(*m, rec.front_face);
    }
    let unit_direction: Vec3 = r_in.dir.unit();
    let c: i64 = unit_direction.neg().dot(rec.normal);
    let cos_theta: i64 = if c < ONE {
        c
    } else {
        ONE
    };
    let sin_theta: i64 = fx_sqrt(fx_sub(ONE, fx_mul(cos_theta, cos_theta)));
    let cannot_refract: bool = fx_mul(ratio, sin_theta) > ONE;
    let dir: Vec3 = if cannot_refract || reflectance(cos_theta, ratio) > draw {
        reflect(unit_direction, rec.normal)
    } else {
        refract(unit_direction, rec.normal, ratio)
    };
    ((Vec3 { x: ONE, y: ONE, z: ONE }), Ray { orig: rec.p, dir })
}

/// A positive index of refraction gives a non-negative refraction ratio, so
/// the Schlick denominator `1 + ratio` is never zero.
pub proof fn lemma_dielectric_ratio_nonneg(m: Dialectric, front_face: bool)
    requires
        m.ior > 0,
    ensures
        0 <= dielectric_ratio(m, front_face),
        sat_add(ONE as int, dielectric_ratio(m, front_face)) != 0,
{
    if front_face {
        assert(65536int * 65536int == 0x100000000) by (nonlinear_arith);
        vstd::arithmetic::div_mod::lemma_div_pos_is_pos((ONE as int) * (ONE as int), m.ior as int);
    }
}

impl Material {
    /// The deterministic core of scattering: the caller supplies the random
    /// unit direction `ruv` and the random unit draw `draw`.
    pub fn scatter_with(&self, r_in: &Ray, rec: &HitRecord, ruv: Vec3, draw: i64) -> (res: Option<
        (Color, Ray),
    >)
        requires
            material_wf(*self),
            sv_len_sq(r_in.dir) > 0,
        ensures
            res == scatter_spec(*self, *r_in, *rec, ruv, draw as int),
    {
        match self {
            Material::Lambertian(l) => Some(lambertian_scatter(l, rec, ruv)),
            Material::Metal(mt) => metal_scatter(mt, r_in, rec, ruv),
            Material::Dialectric(d) => Some(dielectric_scatter(d, r_in, rec, draw)),
        }
    }

    /// Scattering with the randomness drawn from `smp`: some unit direction
    /// and some unit draw decide the outcome; under a constant sampler the
    /// outcome is the one its constant determines.
    pub fn scatter(&self, r_in: &Ray, rec: &HitRecord, smp: &Sampler) -> (res: Option<(Color, Ray)>)
        requires
            material_wf(*self),
            sv_len_sq(r_in.dir) > 0,
            smp.wf(),
        ensures
            exists|ruv: Vec3, draw: int|
                #![auto]
                !sv_near_zero(ruv) && 0 <= draw < ONE as int && res == scatter_spec(
                    *self,
                    *r_in,
                    *rec,
                    ruv,
                    draw,
                ),
            smp.as_constant() matches Some(v) ==> res == scatter_spec(
                *self,
                *r_in,
                *rec,
                unit_vector_of(v as int),
                v as int,
            ),
    {
        let ruv: Vec3 = random_unit_vector(smp);
        let draw: i64 = smp.next_unit();
        let res = self.scatter_with(r_in, rec, ruv, draw);
        proof {
            assert(!sv_near_zero(ruv) && 0 <= (draw as int) < ONE as int && res == scatter_spec(
                *self,
                *r_in,
                *rec,
                ruv,
                draw as int,
            ));
        }
        res
    }
}

/// Lambertian scattering never returns a degenerate direction: when the sum
/// of normal and draw cancels, the normal itself -- nonzero at every hit of
/// a well-formed record -- takes its place.
pub proof fn lemma_lambertian_direction_nonzero(m: Lambertian, rec: HitRecord, ruv: Vec3)
    requires
        !sv_near_zero(rec.normal),
    ensures
        !sv_near_zero(lambertian_scatter_spec(m, rec, ruv).1.dir),
{
}

/// With no fuzz, metal reflects the unit incoming direction exactly, and
/// absorbs the ray exactly when that mirrored direction does not leave the
/// surface.
pub proof fn lemma_metal_exact_reflection(m: Metal, r_in: Ray, rec: HitRecord, ruv: Vec3)
    requires
        m.fuzz == 0,
        sv_len_sq(r_in.dir) > 0,
    ensures
        ({
            let reflected = sv_reflect(sv_unit(r_in.dir), rec.normal);
            metal_scatter_spec(m, r_in, rec, ruv) == (if sv_dot(reflected, rec.normal) > 0 {
                Some((m.albedo, Ray { orig: rec.p, dir: reflected }))
            } else {
                None::<(Color, Ray)>
            })
        }),
{
    let reflected = sv_reflect(sv_unit(r_in.dir), rec.normal);
    crate::fixed::lemma_sat_mul_zero(ruv.x as int);
    crate::fixed::lemma_sat_mul_zero(ruv.y as int);
    crate::fixed::lemma_sat_mul_zero(ruv.z as int);
    assert(sv_scale(ruv, 0int) == crate::vec3::sv_zero());
    assert(sv_add(reflected, crate::vec3::sv_zero()) == reflected);
}

/// A dielectric with an index of refraction of one does not bend the ray at
/// the boundary: the refraction ratio is one on both faces.
pub proof fn lemma_dielectric_unit_ratio(m: Dialectric, front_face: bool)
    requires
        m.ior == ONE,
    ensures
        dielectric_ratio(m, front_face) == ONE as int,
{
    if front_face {
        assert(65536int * 65536int == 0x100000000) by (nonlinear_arith);
        vstd::arithmetic::div_mod::lemma_div_multiples_vanish(65536, 65536);
        assert(crate::fixed::sabs((ONE as int) * (ONE as int)) / crate::fixed::sabs(ONE as int)
            == ONE as int);
    }
}

} // verus!
