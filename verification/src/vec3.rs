//! Three-component fixed-point vectors, points and colors.
//!
//! Every operation is defined first as a spec function over the saturating
//! fixed-point algebra (`sv_*`), and the executable operation is proved to
//! return exactly that value.

use crate::fixed::{
    fx_abs, fx_add, fx_div, fx_mul, fx_neg, fx_sqrt, fx_sub, lemma_sat_mul_self_nonneg,
    lemma_sqrt_pos, sabs, sat64, sat_abs, sat_add, sat_div, sat_mul, sat_neg, sat_sqrt, sat_sub,
    tdiv, ONE, SCALE,
};
use crate::rtweekend::{random_double_range, rr_of, Sampler};
use vstd::prelude::*;

verus! {

#[derive(Clone, Copy, PartialEq, Eq, Structural, Debug)]
pub struct Vec3 {
    pub x: i64,
    pub y: i64,
    pub z: i64,
}

pub open spec fn sv_zero() -> Vec3 {
    Vec3 { x: 0, y: 0, z: 0 }
}

pub open spec fn sv_add(a: Vec3, b: Vec3) -> Vec3 {
    Vec3 {
        x: sat_add(a.x as int, b.x as int) as i64,
        y: sat_add(a.y as int, b.y as int) as i64,
        z: sat_add(a.z as int, b.z as int) as i64,
    }
}

pub open spec fn sv_sub(a: Vec3, b: Vec3) -> Vec3 {
    Vec3 {
        x: sat_sub(a.x as int, b.x as int) as i64,
        y: sat_sub(a.y as int, b.y as int) as i64,
        z: sat_sub(a.z as int, b.z as int) as i64,
    }
}

pub open spec fn sv_neg(a: Vec3) -> Vec3 {
    Vec3 {
        x: sat_neg(a.x as int) as i64,
        y: sat_neg(a.y as int) as i64,
        z: sat_neg(a.z as int) as i64,
    }
}

/// Scale by a fixed-point scalar.
pub open spec fn sv_scale(a: Vec3, t: int) -> Vec3 {
    Vec3 {
        x: sat_mul(a.x as int, t) as i64,
        y: sat_mul(a.y as int, t) as i64,
        z: sat_mul(a.z as int, t) as i64,
    }
}

/// Divide by a fixed-point scalar.
pub open spec fn sv_divs(a: Vec3, t: int) -> Vec3
    recommends
        t != 0,
{
    Vec3 {
        x: sat_div(a.x as int, t) as i64,
        y: sat_div(a.y as int, t) as i64,
        z: sat_div(a.z as int, t) as i64,
    }
}

pub open spec fn sv_ewmul(a: Vec3, b: Vec3) -> Vec3 {
    Vec3 {
        x: sat_mul(a.x as int, b.x as int) as i64,
        y: sat_mul(a.y as int, b.y as int) as i64,
        z: sat_mul(a.z as int, b.z as int) as i64,
    }
}

pub open spec fn sv_dot(a: Vec3, b: Vec3) -> int {
    sat_add(
        sat_add(sat_mul(a.x as int, b.x as int), sat_mul(a.y as int, b.y as int)),
        sat_mul(a.z as int, b.z as int),
    )
}

pub open spec fn sv_cross(a: Vec3, b: Vec3) -> Vec3 {
    Vec3 {
        x: sat_sub(sat_mul(a.y as int, b.z as int), sat_mul(a.z as int, b.y as int)) as i64,
        y: sat_sub(sat_mul(a.z as int, b.x as int), sat_mul(a.x as int, b.z as int)) as i64,
        z: sat_sub(sat_mul(a.x as int, b.y as int), sat_mul(a.y as int, b.x as int)) as i64,
    }
}

pub open spec fn sv_len_sq(a: Vec3) -> int {
    sv_dot(a, a)
}

pub open spec fn sv_len(a: Vec3) -> int {
    sat_sqrt(sv_len_sq(a))
}

pub open spec fn sv_unit(a: Vec3) -> Vec3
    recommends
        sv_len_sq(a) > 0,
{
    sv_divs(a, sv_len(a))
}

/// Below the resolution of the scale there is no direction left: a vector is
/// near zero exactly when every component is zero (the reference threshold,
/// a hundred-millionth, is smaller than one raw unit).
pub open spec fn sv_near_zero(a: Vec3) -> bool {
    a.x == 0 && a.y == 0 && a.z == 0
}

/// Mirror `v` about the plane with normal `n`: `v - n*2*dot(v,n)`.
pub open spec fn sv_reflect(v: Vec3, n: Vec3) -> Vec3 {
    sv_sub(v, sv_scale(sv_scale(n, 2 * (ONE as int)), sv_dot(v, n)))
}

/// Snell refraction of the unit direction `uv` at a surface with unit normal
/// `n`, by perpendicular/parallel decomposition; the cosine is clamped at one
/// and the square root takes the magnitude of the parallel radicand, as the
/// reference does to keep the root in its domain.
pub open spec fn sv_refract(uv: Vec3, n: Vec3, etai_over_etat: int) -> Vec3 {
    let c = sv_dot(sv_neg(uv), n);
    let cos_theta = if c < ONE as int {
        c
    } else {
        ONE as int
    };
    let r_out_perp = sv_scale(sv_add(uv, sv_scale(n, cos_theta)), etai_over_etat);
    let r_out_parallel = sv_scale(
        n,
        sat_neg(sat_sqrt(sat_abs(sat_sub(ONE as int, sv_len_sq(r_out_perp))))),
    );
    sv_add(r_out_perp, r_out_parallel)
}

/// A bound on coordinates under which squaring and summing cannot saturate.
pub const COORD_BOUND: i64 = 0x40_0000_0000;

/// For one component: if its scaled square is counted inside the squared
/// length, dividing by the length cannot exceed two units.
proof fn lemma_unit_component_bound_one(c: int, ls: int)
    requires
        1 <= ls <= 3 * 0x1000000000000000,
        sabs(c) <= COORD_BOUND as int,
        sat_mul(c, c) <= ls,
    ensures
        sabs(sat_div(c, sat_sqrt(ls))) <= 2 * (ONE as int),
{
    let s = SCALE as int;
    let cc = c * c;
    assert(0 <= cc <= (COORD_BOUND as int) * (COORD_BOUND as int)) by (nonlinear_arith)
        requires
            sabs(c) <= COORD_BOUND as int,
            cc == c * c,
    ;
    vstd::arithmetic::div_mod::lemma_div_pos_is_pos(cc, s);
    vstd::arithmetic::div_mod::lemma_div_is_ordered(
        cc,
        (COORD_BOUND as int) * (COORD_BOUND as int),
        s,
    );
    assert(0x4000000000int * 0x4000000000int / 0x10000int == 0x1000000000000000) by (
    nonlinear_arith);
    assert((COORD_BOUND as int) * (COORD_BOUND as int) / s == 0x1000000000000000);
    assert(sat_mul(c, c) == cc / s);
    // the square root brackets the scaled squared length
    let len = sat_sqrt(ls);
    crate::fixed::lemma_sqrt_floor_bounds((ls * s) as nat);
    crate::fixed::lemma_sqrt_pos((ls * s) as nat);
    assert(ls * s >= 0x10000 && ls * s <= 3 * 0x1000000000000000 * 0x10000) by (nonlinear_arith)
        requires
            1 <= ls <= 3 * 0x1000000000000000,
            s == 0x10000,
    ;
    assert(len >= 0x100);
    assert(len * len <= ls * s && ls * s < (len + 1) * (len + 1));
    // the component is at most twice the length
    vstd::arithmetic::div_mod::lemma_fundamental_div_mod(cc, s);
    assert(cc <= s * ls + s - 1) by (nonlinear_arith)
        requires
            cc == s * (cc / s) + cc % s,
            0 <= cc % s < s,
            cc / s <= ls,
            s > 0,
    ;
    assert(sabs(c) <= 2 * len) by (nonlinear_arith)
        requires
            cc == c * c,
            cc <= s * ls + s - 1,
            ls * s < (len + 1) * (len + 1),
            s == 0x10000,
            len >= 0x100,
            sabs(c) == (if c < 0 { -c } else { c }),
    ;
    // so the scaled quotient is at most two units
    crate::fixed::lemma_tdiv_mag(c * s, len);
    assert(sabs(c * s) == sabs(c) * s) by (nonlinear_arith)
        requires
            s > 0,
            sabs(c) == (if c < 0 { -c } else { c }),
            sabs(c * s) == (if c * s < 0 { -(c * s) } else { c * s }),
    ;
    assert(sabs(c) * s <= len * (2 * s)) by (nonlinear_arith)
        requires
            sabs(c) <= 2 * len,
            s > 0,
            len > 0,
    ;
    vstd::arithmetic::div_mod::lemma_div_is_ordered(sabs(c) * s, len * (2 * s), len);
    vstd::arithmetic::div_mod::lemma_div_multiples_vanish(2 * s, len);
}

/// Normalization can overshoot unit length through rounding, but for vectors
/// with in-bound coordinates never by more than a factor of two per component.
pub proof fn lemma_unit_component_bound(v: Vec3)
    requires
        sv_len_sq(v) > 0,
        sabs(v.x as int) <= COORD_BOUND as int,
        sabs(v.y as int) <= COORD_BOUND as int,
        sabs(v.z as int) <= COORD_BOUND as int,
    ensures
        sabs(sv_unit(v).x as int) <= 2 * (ONE as int),
        sabs(sv_unit(v).y as int) <= 2 * (ONE as int),
        sabs(sv_unit(v).z as int) <= 2 * (ONE as int),
{
    let ls = sv_len_sq(v);
    lemma_sat_mul_self_nonneg(v.x as int);
    lemma_sat_mul_self_nonneg(v.y as int);
    lemma_sat_mul_self_nonneg(v.z as int);
    assert(sat_mul(v.x as int, v.x as int) <= 0x1000000000000000 && sat_mul(
        v.y as int,
        v.y as int,
    ) <= 0x1000000000000000 && sat_mul(v.z as int, v.z as int) <= 0x1000000000000000) by {
        lemma_square_scaled_bound(v.x as int);
        lemma_square_scaled_bound(v.y as int);
        lemma_square_scaled_bound(v.z as int);
    }
    assert(ls <= 3 * 0x1000000000000000);
    lemma_unit_component_bound_one(v.x as int, ls);
    lemma_unit_component_bound_one(v.y as int, ls);
    lemma_unit_component_bound_one(v.z as int, ls);
}

/// The scaled square of an in-bound coordinate stays far from saturation.
proof fn lemma_square_scaled_bound(c: int)
    requires
        sabs(c) <= COORD_BOUND as int,
    ensures
        0 <= sat_mul(c, c) <= 0x1000000000000000,
{
    let s = SCALE as int;
    let cc = c * c;
    assert(0 <= cc <= (COORD_BOUND as int) * (COORD_BOUND as int)) by (nonlinear_arith)
        requires
            sabs(c) <= COORD_BOUND as int,
            cc == c * c,
    ;
    vstd::arithmetic::div_mod::lemma_div_pos_is_pos(cc, s);
    vstd::arithmetic::div_mod::lemma_div_is_ordered(
        cc,
        (COORD_BOUND as int) * (COORD_BOUND as int),
        s,
    );
    assert(0x4000000000int * 0x4000000000int / 0x10000int == 0x1000000000000000) by (
    nonlinear_arith);
    assert((COORD_BOUND as int) * (COORD_BOUND as int) / s == 0x1000000000000000);
}

/// Every squared length is non-negative.
pub proof fn lemma_len_sq_nonneg(a: Vec3)
    ensures
        0 <= sv_len_sq(a),
{
    lemma_sat_mul_self_nonneg(a.x as int);
    lemma_sat_mul_self_nonneg(a.y as int);
    lemma_sat_mul_self_nonneg(a.z as int);
}

/// One component of a normalization: the scaled quotient does not saturate,
/// stays within two units, and its product with the length brackets the
/// scaled component to within one length.
proof fn lemma_unit_comp(c: int, len: int)
    requires
        sabs(c) <= ONE as int,
        32768 <= len,
        len < 65536,
    ensures
        ({
            let t = tdiv(c * 65536, len);
            &&& sat_div(c, len) == t
            &&& sabs(t) <= 131072
            &&& sabs(c * 65536 - t * len) < len
        }),
{
    let t = tdiv(c * 65536, len);
    crate::fixed::lemma_tdiv_mag(c * 65536, len);
    assert(sabs(c * 65536) == sabs(c) * 65536) by (nonlinear_arith)
        requires
            sabs(c) == (if c < 0 { -c } else { c }),
            sabs(c * 65536) == (if c * 65536 < 0 { -(c * 65536) } else { c * 65536 }),
    ;
    assert(sabs(c) * 65536 <= 131072 * len) by (nonlinear_arith)
        requires
            sabs(c) <= 65536,
            len >= 32768,
    ;
    vstd::arithmetic::div_mod::lemma_div_is_ordered(sabs(c * 65536), 131072 * len, len);
    vstd::arithmetic::div_mod::lemma_div_multiples_vanish(131072, len);
    crate::fixed::lemma_tdiv_bracket(c * 65536, len);
}

/// Normalization points the same way as its argument: every component keeps
/// its sign.
pub proof fn lemma_unit_preserves_signs(v: Vec3)
    requires
        sv_len_sq(v) > 0,
    ensures
        v.x >= 0 ==> sv_unit(v).x >= 0,
        v.x <= 0 ==> sv_unit(v).x <= 0,
        v.y >= 0 ==> sv_unit(v).y >= 0,
        v.y <= 0 ==> sv_unit(v).y <= 0,
        v.z >= 0 ==> sv_unit(v).z >= 0,
        v.z <= 0 ==> sv_unit(v).z <= 0,
{
    let s = SCALE as int;
    let ls = sv_len_sq(v);
    crate::fixed::lemma_sqrt_pos((ls * s) as nat);
    let len = sat_sqrt(ls);
    assert(len > 0);
    lemma_sign_of_quotient(v.x as int, len);
    lemma_sign_of_quotient(v.y as int, len);
    lemma_sign_of_quotient(v.z as int, len);
}

/// The scaled quotient of a component by a positive length has the
/// component's sign.
proof fn lemma_sign_of_quotient(c: int, len: int)
    requires
        len > 0,
    ensures
        c >= 0 ==> sat_div(c, len) >= 0,
        c <= 0 ==> sat_div(c, len) <= 0,
{
    let s = SCALE as int;
    assert(c >= 0 ==> c * s >= 0) by (nonlinear_arith)
        requires
            s > 0,
    ;
    assert(c <= 0 ==> c * s <= 0) by (nonlinear_arith)
        requires
            s > 0,
    ;
    vstd::arithmetic::div_mod::lemma_div_pos_is_pos(sabs(c * s), len);
}

/// Normalizing a vector whose squared length lies in `[1/4, 1)` -- what the
/// ball sampler accepts -- lands within `64/65536` of unit squared length.
pub proof fn lemma_unit_length_near_one(v: Vec3)
    requires
        (ONE as int) / 4 <= sv_len_sq(v),
        sv_len_sq(v) < ONE as int,
        sabs(v.x as int) <= ONE as int,
        sabs(v.y as int) <= ONE as int,
        sabs(v.z as int) <= ONE as int,
    ensures
        sabs(sv_len_sq(sv_unit(v)) - ONE as int) <= 64,
{
    let s = 65536int;
    let c1 = v.x as int;
    let c2 = v.y as int;
    let c3 = v.z as int;
    let ls = sv_len_sq(v);
    // the squared components and the rounding they lose
    lemma_square_in_unit(c1);
    lemma_square_in_unit(c2);
    lemma_square_in_unit(c3);
    vstd::arithmetic::div_mod::lemma_fundamental_div_mod(c1 * c1, s);
    vstd::arithmetic::div_mod::lemma_fundamental_div_mod(c2 * c2, s);
    vstd::arithmetic::div_mod::lemma_fundamental_div_mod(c3 * c3, s);
    vstd::arithmetic::div_mod::lemma_mod_bound(c1 * c1, s);
    vstd::arithmetic::div_mod::lemma_mod_bound(c2 * c2, s);
    vstd::arithmetic::div_mod::lemma_mod_bound(c3 * c3, s);
    assert(ls == sat_mul(c1, c1) + sat_mul(c2, c2) + sat_mul(c3, c3));
    let csum = c1 * c1 + c2 * c2 + c3 * c3;
    let rr = (c1 * c1) % s + (c2 * c2) % s + (c3 * c3) % s;
    assert(csum == s * ls + rr && 0 <= rr < 3 * s);
    // the length brackets the scaled squared length
    let len = sat_sqrt(ls);
    crate::fixed::lemma_sqrt_floor_bounds((ls * s) as nat);
    let ll = len * len;
    assert(ll <= ls * s && ls * s < (len + 1) * (len + 1));
    assert(32768 <= len && len < 65536) by (nonlinear_arith)
        requires
            len * len <= ls * s,
            ls * s < (len + 1) * (len + 1),
            16384 <= ls < 65536,
            s == 65536,
            len >= 0,
    ;
    // the unit components and their rounding errors
    lemma_unit_comp(c1, len);
    lemma_unit_comp(c2, len);
    lemma_unit_comp(c3, len);
    let t1 = tdiv(c1 * s, len);
    let t2 = tdiv(c2 * s, len);
    let t3 = tdiv(c3 * s, len);
    let u = sv_unit(v);
    assert(u.x as int == t1 && u.y as int == t2 && u.z as int == t3);
    let cs1 = c1 * s;
    let cs2 = c2 * s;
    let cs3 = c3 * s;
    let a1 = t1 * len;
    let a2 = t2 * len;
    let a3 = t3 * len;
    let e1 = cs1 - a1;
    let e2 = cs2 - a2;
    let e3 = cs3 - a3;
    assert(sabs(e1) < len && sabs(e2) < len && sabs(e3) < len);
    // squaring the bracketed products, one low-degree step at a time
    let w1 = t1 * t1;
    let w2 = t2 * t2;
    let w3 = t3 * t3;
    assert(w1 * ll == a1 * a1) by (nonlinear_arith)
        requires
            w1 == t1 * t1,
            ll == len * len,
            a1 == t1 * len,
    ;
    assert(w2 * ll == a2 * a2) by (nonlinear_arith)
        requires
            w2 == t2 * t2,
            ll == len * len,
            a2 == t2 * len,
    ;
    assert(w3 * ll == a3 * a3) by (nonlinear_arith)
        requires
            w3 == t3 * t3,
            ll == len * len,
            a3 == t3 * len,
    ;
    assert(a1 * a1 == cs1 * cs1 - 2 * (cs1 * e1) + e1 * e1) by (nonlinear_arith)
        requires
            e1 == cs1 - a1,
    ;
    assert(a2 * a2 == cs2 * cs2 - 2 * (cs2 * e2) + e2 * e2) by (nonlinear_arith)
        requires
            e2 == cs2 - a2,
    ;
    assert(a3 * a3 == cs3 * cs3 - 2 * (cs3 * e3) + e3 * e3) by (nonlinear_arith)
        requires
            e3 == cs3 - a3,
    ;
    assert(cs1 * cs1 == (c1 * c1) * (s * s)) by (nonlinear_arith)
        requires
            cs1 == c1 * s,
    ;
    assert(cs2 * cs2 == (c2 * c2) * (s * s)) by (nonlinear_arith)
        requires
            cs2 == c2 * s,
    ;
    assert(cs3 * cs3 == (c3 * c3) * (s * s)) by (nonlinear_arith)
        requires
            cs3 == c3 * s,
    ;
    let s2 = w1 + w2 + w3;
    assert(s2 * ll == w1 * ll + w2 * ll + w3 * ll) by (nonlinear_arith)
        requires
            s2 == w1 + w2 + w3,
    ;
    assert(csum * (s * s) == (c1 * c1) * (s * s) + (c2 * c2) * (s * s) + (c3 * c3) * (s * s)) by (
    nonlinear_arith)
        requires
            csum == c1 * c1 + c2 * c2 + c3 * c3,
    ;
    let cross = cs1 * e1 + cs2 * e2 + cs3 * e3;
    let esq = e1 * e1 + e2 * e2 + e3 * e3;
    assert(s2 * ll == csum * (s * s) - 2 * cross + esq);
    // bound the error terms
    assert(-((s * s) * len) <= cs1 * e1 <= (s * s) * len && 0 <= e1 * e1 <= ll) by (
    nonlinear_arith)
        requires
            sabs(c1) <= s,
            sabs(e1) < len,
            0 < len,
            cs1 == c1 * s,
            ll == len * len,
            s == 65536,
            sabs(c1) == (if c1 < 0 { -c1 } else { c1 }),
            sabs(e1) == (if e1 < 0 { -e1 } else { e1 }),
    ;
    assert(-((s * s) * len) <= cs2 * e2 <= (s * s) * len && 0 <= e2 * e2 <= ll) by (
    nonlinear_arith)
        requires
            sabs(c2) <= s,
            sabs(e2) < len,
            0 < len,
            cs2 == c2 * s,
            ll == len * len,
            s == 65536,
            sabs(c2) == (if c2 < 0 { -c2 } else { c2 }),
            sabs(e2) == (if e2 < 0 { -e2 } else { e2 }),
    ;
    assert(-((s * s) * len) <= cs3 * e3 <= (s * s) * len && 0 <= e3 * e3 <= ll) by (
    nonlinear_arith)
        requires
            sabs(c3) <= s,
            sabs(e3) < len,
            0 < len,
            cs3 == c3 * s,
            ll == len * len,
            s == 65536,
            sabs(c3) == (if c3 < 0 { -c3 } else { c3 }),
            sabs(e3) == (if e3 < 0 { -e3 } else { e3 }),
    ;
    // squeeze the sum of squared unit components around s^2
    assert(csum * (s * s) >= (s * s) * ll && csum * (s * s) <= (s * s) * ((len + 1) * (len + 1) - 1)
        + 3 * ((s * s) * s)) by (nonlinear_arith)
        requires
            csum == s * ls + rr,
            0 <= rr < 3 * s,
            ll <= ls * s,
            ls * s < (len + 1) * (len + 1),
            s == 65536,
    ;
    assert(6 * ((s * s) * len) <= 12 * (s * ll) && (s * s) * ((len + 1) * (len + 1) - 1) + 3 * ((s
        * s) * s) + 6 * ((s * s) * len) + 3 * ll <= (s * s) * ll + 40 * (s * ll)) by (
    nonlinear_arith)
        requires
            ll == len * len,
            32768 <= len < 65536,
            s == 65536,
    ;
    assert(s2 * ll >= ((s * s) - 12 * s) * ll && s2 * ll <= ((s * s) + 40 * s) * ll) by (
    nonlinear_arith)
        requires
            s2 * ll == csum * (s * s) - 2 * cross + esq,
            csum * (s * s) >= (s * s) * ll,
            csum * (s * s) + 6 * ((s * s) * len) + 3 * ll <= (s * s) * ll + 40 * (s * ll),
            -(3 * ((s * s) * len)) <= cross <= 3 * ((s * s) * len),
            0 <= esq <= 3 * ll,
            6 * ((s * s) * len) <= 12 * (s * ll),
            ll > 0,
            s == 65536,
    ;
    assert((s * s) - 12 * s <= s2 && s2 <= (s * s) + 40 * s) by (nonlinear_arith)
        requires
            s2 * ll >= ((s * s) - 12 * s) * ll,
            s2 * ll <= ((s * s) + 40 * s) * ll,
            ll > 0,
    ;
    // the squared length of the unit vector collects the three scaled squares
    assert(0 <= w1 <= 131072 * 131072 && 0 <= w2 <= 131072 * 131072 && 0 <= w3 <= 131072
        * 131072) by (nonlinear_arith)
        requires
            w1 == t1 * t1,
            w2 == t2 * t2,
            w3 == t3 * t3,
            sabs(t1) <= 131072,
            sabs(t2) <= 131072,
            sabs(t3) <= 131072,
            sabs(t1) == (if t1 < 0 { -t1 } else { t1 }),
            sabs(t2) == (if t2 < 0 { -t2 } else { t2 }),
            sabs(t3) == (if t3 < 0 { -t3 } else { t3 }),
    ;
    vstd::arithmetic::div_mod::lemma_fundamental_div_mod(w1, s);
    vstd::arithmetic::div_mod::lemma_fundamental_div_mod(w2, s);
    vstd::arithmetic::div_mod::lemma_fundamental_div_mod(w3, s);
    vstd::arithmetic::div_mod::lemma_mod_bound(w1, s);
    vstd::arithmetic::div_mod::lemma_mod_bound(w2, s);
    vstd::arithmetic::div_mod::lemma_mod_bound(w3, s);
    vstd::arithmetic::div_mod::lemma_div_pos_is_pos(w1, s);
    vstd::arithmetic::div_mod::lemma_div_pos_is_pos(w2, s);
    vstd::arithmetic::div_mod::lemma_div_pos_is_pos(w3, s);
    vstd::arithmetic::div_mod::lemma_div_is_ordered(w1, 131072int * 131072, s);
    vstd::arithmetic::div_mod::lemma_div_is_ordered(w2, 131072int * 131072, s);
    vstd::arithmetic::div_mod::lemma_div_is_ordered(w3, 131072int * 131072, s);
    assert(131072int * 131072 / 65536 == 262144) by (nonlinear_arith);
    let lsu = sv_len_sq(u);
    assert(lsu == w1 / s + w2 / s + w3 / s);
    assert(s * lsu == s2 - (w1 % s + w2 % s + w3 % s));
    assert(s - 64 <= lsu && lsu <= s + 64) by (nonlinear_arith)
        requires
            s2 - 3 * s <= s * lsu <= s2,
            (s * s) - 12 * s <= s2 <= (s * s) + 40 * s,
            s == 65536,
    ;
}

/// The square of an in-unit coordinate, scaled down, stays in `[0, 1]`.
proof fn lemma_square_in_unit(c: int)
    requires
        sabs(c) <= ONE as int,
    ensures
        0 <= sat_mul(c, c) <= ONE as int,
        sat_mul(c, c) == (c * c) / (SCALE as int),
{
    let s = SCALE as int;
    assert(0 <= c * c <= s * s) by (nonlinear_arith)
        requires
            sabs(c) <= s,
            sabs(c) == (if c < 0 { -c } else { c }),
    ;
    vstd::arithmetic::div_mod::lemma_div_pos_is_pos(c * c, s);
    vstd::arithmetic::div_mod::lemma_div_is_ordered(c * c, s * s, s);
    vstd::arithmetic::div_mod::lemma_div_multiples_vanish(s, s);
    assert(s * s == s * s);
}

/// Attenuating by a unit-interval albedo can only darken: each channel of
/// the tinted color stays between zero and the incoming channel.
pub proof fn lemma_ewmul_attenuates(att: Vec3, sub: Vec3)
    requires
        0 <= att.x <= ONE,
        0 <= att.y <= ONE,
        0 <= att.z <= ONE,
        0 <= sub.x,
        0 <= sub.y,
        0 <= sub.z,
    ensures
        0 <= sv_ewmul(att, sub).x as int <= sub.x as int,
        0 <= sv_ewmul(att, sub).y as int <= sub.y as int,
        0 <= sv_ewmul(att, sub).z as int <= sub.z as int,
{
    crate::fixed::lemma_sat_mul_unit(att.x as int, sub.x as int);
    crate::fixed::lemma_sat_mul_unit(att.y as int, sub.y as int);
    crate::fixed::lemma_sat_mul_unit(att.z as int, sub.z as int);
}

pub trait NearZero {
    spec fn near_zero_spec(&self) -> bool;

    fn near_zero(&self) -> (r: bool)
        ensures
            r == self.near_zero_spec(),
    ;
}

pub trait Cross: Sized {
    spec fn cross_spec(&self, rhs: Self) -> Self;

    fn cross(&self, rhs: Self) -> (r: Self)
        ensures
            r == self.cross_spec(rhs),
    ;
}

pub trait Unit: Sized {
    spec fn unit_req(&self) -> bool;

    spec fn unit_spec(&self) -> Self;

    fn unit(&self) -> (r: Self)
        requires
            self.unit_req(),
        ensures
            r == self.unit_spec(),
    ;
}

impl Vec3 {
    pub fn new(x: i64, y: i64, z: i64) -> (r: Vec3)
        ensures
            r == (Vec3 { x, y, z }),
    {
        Vec3 { x, y, z }
    }

    pub fn add(self, rhs: Vec3) -> (r: Vec3)
        ensures
            r == sv_add(self, rhs),
    {
        Vec3 { x: fx_add(self.x, rhs.x), y: fx_add(self.y, rhs.y), z: fx_add(self.z, rhs.z) }
    }

    pub fn sub(self, rhs: Vec3) -> (r: Vec3)
        ensures
            r == sv_sub(self, rhs),
    {
        Vec3 { x: fx_sub(self.x, rhs.x), y: fx_sub(self.y, rhs.y), z: fx_sub(self.z, rhs.z) }
    }

    pub fn neg(self) -> (r: Vec3)
        ensures
            r == sv_neg(self),
    {
        Vec3 { x: fx_neg(self.x), y: fx_neg(self.y), z: fx_neg(self.z) }
    }

    /// Scale by a fixed-point scalar.
    pub fn mul(self, t: i64) -> (r: Vec3)
        ensures
            r == sv_scale(self, t as int),
    {
        Vec3 { x: fx_mul(self.x, t), y: fx_mul(self.y, t), z: fx_mul(self.z, t) }
    }

    /// Divide by a fixed-point scalar.
    pub fn div(self, t: i64) -> (r: Vec3)
        requires
            t != 0,
        ensures
            r == sv_divs(self, t as int),
    {
        Vec3 { x: fx_div(self.x, t), y: fx_div(self.y, t), z: fx_div(self.z, t) }
    }

    pub fn dot(&self, rhs: Vec3) -> (r: i64)
        ensures
            r as int == sv_dot(*self, rhs),
    {
        fx_add(fx_add(fx_mul(self.x, rhs.x), fx_mul(self.y, rhs.y)), fx_mul(self.z, rhs.z))
    }

    pub fn length_squared(&self) -> (r: i64)
        ensures
            r as int == sv_len_sq(*self),
            r >= 0,
    {
        proof {
            lemma_len_sq_nonneg(*self);
        }
        self.dot(*self)
    }

    pub fn length(&self) -> (r: i64)
        ensures
            r as int == sv_len(*self),
            r >= 0,
    {
        fx_sqrt(self.length_squared())
    }
}

impl NearZero for Vec3 {
    open spec fn near_zero_spec(&self) -> bool {
        sv_near_zero(*self)
    }

    fn near_zero(&self) -> bool {
        self.x == 0 && self.y == 0 && self.z == 0
    }
}

impl Cross for Vec3 {
    open spec fn cross_spec(&self, rhs: Vec3) -> Vec3 {
        sv_cross(*self, rhs)
    }

    fn cross(&self, rhs: Vec3) -> Vec3 {
        Vec3 {
            x: fx_sub(fx_mul(self.y, rhs.z), fx_mul(self.z, rhs.y)),
            y: fx_sub(fx_mul(self.z, rhs.x), fx_mul(self.x, rhs.z)),
            z: fx_sub(fx_mul(self.x, rhs.y), fx_mul(self.y, rhs.x)),
        }
    }
}

impl Unit for Vec3 {
    open spec fn unit_req(&self) -> bool {
        sv_len_sq(*self) > 0
    }

    open spec fn unit_spec(&self) -> Vec3 {
        sv_unit(*self)
    }

    fn unit(&self) -> Vec3 {
        let ls: i64 = self.length_squared();
        let len: i64 = fx_sqrt(ls);
        proof {
            assert((ls as int) * (SCALE as int) >= 0x10000);
            lemma_sqrt_pos(((ls as int) * (SCALE as int)) as nat);
        }
        self.div(len)
    }
}

pub fn dot(v1: Vec3, v2: Vec3) -> (r: i64)
    ensures
        r as int == sv_dot(v1, v2),
{
    v1.dot(v2)
}

pub fn cross(v1: Vec3, v2: Vec3) -> (r: Vec3)
    ensures
        r == sv_cross(v1, v2),
{
    v1.cross(v2)
}

pub fn mul(v: Vec3, t: i64) -> (r: Vec3)
    ensures
        r == sv_scale(v, t as int),
{
    v.mul(t)
}

pub fn div(v: Vec3, t: i64) -> (r: Vec3)
    requires
        t != 0,
    ensures
        r == sv_divs(v, t as int),
{
    v.div(t)
}

pub fn element_wise_mul(v1: Vec3, v2: Vec3) -> (r: Vec3)
    ensures
        r == sv_ewmul(v1, v2),
{
    Vec3 { x: fx_mul(v1.x, v2.x), y: fx_mul(v1.y, v2.y), z: fx_mul(v1.z, v2.z) }
}

pub fn reflect(v: Vec3, n: Vec3) -> (r: Vec3)
    ensures
        r == sv_reflect(v, n),
{
    let d: i64 = v.dot(n);
    v.sub(n.mul(2 * ONE).mul(d))
}

pub fn refract(uv: Vec3, n: Vec3, etai_over_etat: i64) -> (r: Vec3)
    ensures
        r == sv_refract(uv, n, etai_over_etat as int),
{
    let c: i64 = uv.neg().dot(n);
    let cos_theta: i64 = if c < ONE {
        c
    } else {
        ONE
    };
    let r_out_perp: Vec3 = uv.add(n.mul(cos_theta)).mul(etai_over_etat);
    let k: i64 = fx_abs(fx_sub(ONE, r_out_perp.length_squared()));
    let r_out_parallel: Vec3 = n.mul(fx_neg(fx_sqrt(k)));
    r_out_perp.add(r_out_parallel)
}

/// The vector a single constant draw places into `[min, max)` on every axis.
pub open spec fn rr_vec_of(min: int, max: int, u: int) -> Vec3 {
    Vec3 {
        x: rr_of(min, max, u) as i64,
        y: rr_of(min, max, u) as i64,
        z: rr_of(min, max, u) as i64,
    }
}

/// The fixed interior point the ball sampler falls back to.
pub open spec fn ball_fallback() -> Vec3 {
    Vec3 { x: 0, y: 0, z: 0x8000 }
}

/// The ball point a constant draw yields: the placed sample when it is
/// usable, the fixed fallback otherwise.
pub open spec fn sphere_sample_of(u: int) -> Vec3 {
    let p = rr_vec_of(-(ONE as int), ONE as int, u);
    if (ONE as int) / 4 <= sv_len_sq(p) && sv_len_sq(p) < ONE as int {
        p
    } else {
        ball_fallback()
    }
}

/// The unit direction a constant draw yields.
pub open spec fn unit_vector_of(u: int) -> Vec3 {
    let s = sv_unit(sphere_sample_of(u));
    if sv_near_zero(s) {
        Vec3 { x: 0, y: 0, z: ONE }
    } else {
        s
    }
}

/// The disk point a constant draw yields: the placed sample when it lies in
/// the open disk, the center otherwise.
pub open spec fn disk_sample_of(u: int) -> Vec3 {
    let p = Vec3 {
        x: rr_of(-(ONE as int), ONE as int, u) as i64,
        y: rr_of(-(ONE as int), ONE as int, u) as i64,
        z: 0,
    };
    if sv_len_sq(p) < ONE as int {
        p
    } else {
        sv_zero()
    }
}

/// A unit draw placed into `[-1, 1)` lands exactly at `2u - 1`.
pub proof fn lemma_rr_unit_range(u: int)
    requires
        0 <= u < ONE as int,
    ensures
        rr_of(-(ONE as int), ONE as int, u) == 2 * u - ONE as int,
        -(ONE as int) <= rr_of(-(ONE as int), ONE as int, u) < ONE as int,
{
    let s = SCALE as int;
    assert(u * (2 * s) == s * (2 * u)) by (nonlinear_arith);
    vstd::arithmetic::div_mod::lemma_div_multiples_vanish(2 * u, s);
    vstd::arithmetic::div_mod::lemma_div_pos_is_pos(u * (2 * s), s);
}

/// Scaling a small vector component by an in-bound one cannot saturate, and
/// negating the small factor negates the product.
proof fn lemma_sat_mul_neg_component(a: int, b: int)
    requires
        sabs(a) <= 2 * (ONE as int),
        sabs(b) <= COORD_BOUND as int,
    ensures
        sabs(sat_mul(a, b)) <= 0x10000000000,
        sat_mul(sat_neg(a), b) == -sat_mul(a, b),
{
    let s = SCALE as int;
    assert(sabs(a * b) == sabs(a) * sabs(b) && (-a) * b == -(a * b)) by (nonlinear_arith)
        requires
            sabs(a) == (if a < 0 { -a } else { a }),
            sabs(b) == (if b < 0 { -b } else { b }),
            sabs(a * b) == (if a * b < 0 { -(a * b) } else { a * b }),
    ;
    assert(sabs(a) * sabs(b) <= 2 * (ONE as int) * (COORD_BOUND as int)) by (nonlinear_arith)
        requires
            0 <= sabs(a) <= 2 * (ONE as int),
            0 <= sabs(b) <= COORD_BOUND as int,
    ;
    crate::fixed::lemma_tdiv_mag(a * b, s);
    vstd::arithmetic::div_mod::lemma_div_is_ordered(
        sabs(a * b),
        2 * (ONE as int) * (COORD_BOUND as int),
        s,
    );
    assert(2 * 0x10000int * 0x4000000000int / 0x10000int == 0x8000000000) by (nonlinear_arith);
    crate::fixed::lemma_tdiv_neg(a * b, s);
    assert(sat_neg(a) == -a);
    assert(sat_mul(-a, b) == sat64(tdiv(-(a * b), s)));
}

/// Negating a direction with small components flips its dot product against
/// any in-bound vector exactly.
pub proof fn lemma_dot_neg_flip(u: Vec3, n: Vec3)
    requires
        sabs(u.x as int) <= 2 * (ONE as int),
        sabs(u.y as int) <= 2 * (ONE as int),
        sabs(u.z as int) <= 2 * (ONE as int),
        sabs(n.x as int) <= COORD_BOUND as int,
        sabs(n.y as int) <= COORD_BOUND as int,
        sabs(n.z as int) <= COORD_BOUND as int,
    ensures
        sv_dot(sv_neg(u), n) == -sv_dot(u, n),
{
    lemma_sat_mul_neg_component(u.x as int, n.x as int);
    lemma_sat_mul_neg_component(u.y as int, n.y as int);
    lemma_sat_mul_neg_component(u.z as int, n.z as int);
}

/// A vector with each component drawn from `[0, 1)`.
pub fn random(smp: &Sampler) -> (r: Vec3)
    requires
        smp.wf(),
    ensures
        0 <= r.x < ONE,
        0 <= r.y < ONE,
        0 <= r.z < ONE,
{
    Vec3 { x: smp.next_unit(), y: smp.next_unit(), z: smp.next_unit() }
}

/// A vector with each component placed linearly into `[min, max)` by its own
/// unit draw.
pub fn random_range(min: i64, max: i64, smp: &Sampler) -> (r: Vec3)
    requires
        smp.wf(),
    ensures
        exists|ux: int, uy: int, uz: int|
            #![auto]
            0 <= ux < ONE && 0 <= uy < ONE && 0 <= uz < ONE && r == (Vec3 {
                x: rr_of(min as int, max as int, ux) as i64,
                y: rr_of(min as int, max as int, uy) as i64,
                z: rr_of(min as int, max as int, uz) as i64,
            }),
        smp.as_constant() matches Some(v) ==> r == rr_vec_of(min as int, max as int, v as int),
{
    let x: i64 = random_double_range(min, max, smp);
    let y: i64 = random_double_range(min, max, smp);
    let z: i64 = random_double_range(min, max, smp);
    Vec3 { x, y, z }
}

/// Rejection-samples a point of the open unit ball whose squared length is
/// at least a quarter -- anything shorter would make normalization too
/// coarse; after too many rejections it falls back to a fixed interior
/// point, so the function is total.
fn random_in_unit_sphere(smp: &Sampler) -> (r: Vec3)
    requires
        smp.wf(),
    ensures
        (ONE as int) / 4 <= sv_len_sq(r) < ONE as int,
        sabs(r.x as int) <= ONE as int,
        sabs(r.y as int) <= ONE as int,
        sabs(r.z as int) <= ONE as int,
        smp.as_constant() matches Some(v) ==> r == sphere_sample_of(v as int),
{
    let mut k: usize = 0;
    while k < 64
        invariant
            smp.wf(),
            smp.as_constant() matches Some(v) ==> (k == 0 || sphere_sample_of(v as int)
                == ball_fallback()),
        decreases 64 - k,
    {
        let p: Vec3 = random_range(-ONE, ONE, smp);
        let ls: i64 = p.length_squared();
        proof {
            let (ux, uy, uz) = choose|ux: int, uy: int, uz: int|
                #![trigger rr_of(-(ONE as int), ONE as int, ux), rr_of(-(ONE as int), ONE as int, uy), rr_of(-(ONE as int), ONE as int, uz)]
                0 <= ux < ONE && 0 <= uy < ONE && 0 <= uz < ONE && p == (Vec3 {
                    x: rr_of(-(ONE as int), ONE as int, ux) as i64,
                    y: rr_of(-(ONE as int), ONE as int, uy) as i64,
                    z: rr_of(-(ONE as int), ONE as int, uz) as i64,
                });
            lemma_rr_unit_range(ux);
            lemma_rr_unit_range(uy);
            lemma_rr_unit_range(uz);
        }
        if ONE / 4 <= ls && ls < ONE {
            return p;
        }
        k = k + 1;
    }
    let f: Vec3 = Vec3 { x: 0, y: 0, z: 0x8000 };
    proof {
        assert(0x8000int * 0x8000int == 0x40000000) by (nonlinear_arith);
        assert(sabs(0x40000000) / (SCALE as int) == 0x4000);
        assert(sv_len_sq(f) == 0x4000);
    }
    f
}

/// A unit-length direction: the normalization of an accepted ball sample (or
/// the axis kept for the degenerate cases).  Its squared length stays within
/// `64/65536` of one, so it is never the zero vector and every component
/// stays within two units.
pub fn random_unit_vector(smp: &Sampler) -> (r: Vec3)
    requires
        smp.wf(),
    ensures
        !sv_near_zero(r),
        sabs(sv_len_sq(r) - ONE as int) <= 64,
        sabs(r.x as int) <= 2 * (ONE as int),
        sabs(r.y as int) <= 2 * (ONE as int),
        sabs(r.z as int) <= 2 * (ONE as int),
        exists|p: Vec3|
            #![auto]
            (ONE as int) / 4 <= sv_len_sq(p) < ONE as int && r == (if sv_near_zero(sv_unit(p)) {
                Vec3 { x: 0, y: 0, z: ONE }
            } else {
                sv_unit(p)
            }),
        smp.as_constant() matches Some(v) ==> r == unit_vector_of(v as int),
{
    let p: Vec3 = random_in_unit_sphere(smp);
    proof {
        lemma_unit_component_bound(p);
        lemma_unit_length_near_one(p);
    }
    let u: Vec3 = p.unit();
    let r: Vec3 = if u.near_zero() {
        Vec3 { x: 0, y: 0, z: ONE }
    } else {
        u
    };
    proof {
        assert((ONE as int) / 4 <= sv_len_sq(p) < ONE as int && r == (if sv_near_zero(sv_unit(p)) {
            Vec3 { x: 0, y: 0, z: ONE }
        } else {
            sv_unit(p)
        }));
        if sv_near_zero(sv_unit(p)) {
            assert(0int * 0int == 0 && (ONE as int) * (ONE as int) == 0x100000000) by (
            nonlinear_arith);
            vstd::arithmetic::div_mod::lemma_div_multiples_vanish(ONE as int, SCALE as int);
            assert(sabs(0x100000000) / (SCALE as int) == ONE as int);
            assert(sabs(0) / (SCALE as int) == 0);
            assert(sv_len_sq(r) == ONE as int);
        }
    }
    r
}

/// A unit direction turned into the half-space that `normal` opens: the draw
/// itself if it already points that way, otherwise its negation.
pub fn random_on_hemisphere(normal: &Vec3, smp: &Sampler) -> (r: Vec3)
    requires
        smp.wf(),
    ensures
        !sv_near_zero(r),
        exists|u: Vec3|
            #![auto]
            !sv_near_zero(u) && r == (if sv_dot(u, *normal) > 0 {
                u
            } else {
                sv_neg(u)
            }),
        sabs(normal.x as int) <= COORD_BOUND as int && sabs(normal.y as int) <= COORD_BOUND as int
            && sabs(normal.z as int) <= COORD_BOUND as int ==> sv_dot(r, *normal) >= 0,
{
    let on_unit_sphere: Vec3 = random_unit_vector(smp);
    proof {
        if sabs(normal.x as int) <= COORD_BOUND as int && sabs(normal.y as int)
            <= COORD_BOUND as int && sabs(normal.z as int) <= COORD_BOUND as int {
            lemma_dot_neg_flip(on_unit_sphere, *normal);
        }
    }
    if on_unit_sphere.dot(*normal) > 0 {
        on_unit_sphere
    } else {
        on_unit_sphere.neg()
    }
}

/// Rejection-samples a point of the open unit disk in the x-y plane; falls
/// back to the disk's center after too many rejections.
pub fn random_in_unit_disk(smp: &Sampler) -> (r: Vec3)
    requires
        smp.wf(),
    ensures
        sv_len_sq(r) < ONE as int,
        r.z == 0,
        smp.as_constant() matches Some(v) ==> r == disk_sample_of(v as int),
{
    let mut k: usize = 0;
    while k < 64
        invariant
            smp.wf(),
            smp.as_constant() matches Some(v) ==> (k == 0 || disk_sample_of(v as int)
                == sv_zero()),
        decreases 64 - k,
    {
        let p: Vec3 = Vec3 {
            x: random_double_range(-ONE, ONE, smp),
            y: random_double_range(-ONE, ONE, smp),
            z: 0,
        };
        let ls: i64 = p.length_squared();
        if ls < ONE {
            return p;
        }
        k = k + 1;
    }
    let f: Vec3 = Vec3 { x: 0, y: 0, z: 0 };
    proof {
        assert(sv_len_sq(f) == 0);
    }
    f
}

} // verus!
