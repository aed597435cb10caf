//! Signed 16.16 fixed-point scalars.
//!
//! A scalar is an `i64` holding `65536` times its mathematical value.
//! Every arithmetic operation is total: results outside the `i64` range
//! saturate at the nearest representable value, and the scaling division
//! truncates toward zero.  The spec functions below define that algebra
//! over `int`, and each executable operation is proved to return exactly
//! the value the algebra gives.

use vstd::prelude::*;

verus! {

/// Number of raw units per mathematical unit: the scalar `x` denotes `x / 65536`.
pub const SCALE: i64 = 0x10000;

/// The raw representation of one.
pub const ONE: i64 = 0x10000;

/// Clips an unbounded integer into the `i64` range.
pub open spec fn sat64(x: int) -> int {
    if x > i64::MAX as int {
        i64::MAX as int
    } else if x < i64::MIN as int {
        i64::MIN as int
    } else {
        x
    }
}

/// Magnitude of an integer.
pub open spec fn sabs(x: int) -> int {
    if x < 0 {
        -x
    } else {
        x
    }
}

/// Division truncating toward zero, the rounding used by every scaling step.
pub open spec fn tdiv(n: int, d: int) -> int
    recommends
        d != 0,
{
    if (n < 0) == (d < 0) {
        sabs(n) / sabs(d)
    } else {
        -(sabs(n) / sabs(d))
    }
}

/// Saturating fixed-point addition.
pub open spec fn sat_add(a: int, b: int) -> int {
    sat64(a + b)
}

/// Saturating fixed-point subtraction.
pub open spec fn sat_sub(a: int, b: int) -> int {
    sat64(a - b)
}

/// Saturating fixed-point negation.
pub open spec fn sat_neg(a: int) -> int {
    sat64(-a)
}

/// Saturating fixed-point magnitude.
pub open spec fn sat_abs(a: int) -> int {
    sat64(sabs(a))
}

/// Saturating fixed-point multiplication: scale the double-width product back down.
pub open spec fn sat_mul(a: int, b: int) -> int {
    sat64(tdiv(a * b, SCALE as int))
}

/// Saturating fixed-point division: scale the numerator up, then divide.
pub open spec fn sat_div(a: int, b: int) -> int
    recommends
        b != 0,
{
    sat64(tdiv(a * (SCALE as int), b))
}

pub fn fx_add(a: i64, b: i64) -> (r: i64)
    ensures
        r as int == sat_add(a as int, b as int),
{
    let s: i128 = a as i128 + b as i128;
    if s > i64::MAX as i128 {
        i64::MAX
    } else if s < i64::MIN as i128 {
        i64::MIN
    } else {
        s as i64
    }
}

pub fn fx_sub(a: i64, b: i64) -> (r: i64)
    ensures
        r as int == sat_sub(a as int, b as int),
{
    let s: i128 = a as i128 - b as i128;
    if s > i64::MAX as i128 {
        i64::MAX
    } else if s < i64::MIN as i128 {
        i64::MIN
    } else {
        s as i64
    }
}

pub fn fx_neg(a: i64) -> (r: i64)
    ensures
        r as int == sat_neg(a as int),
{
    if a == i64::MIN {
        i64::MAX
    } else {
        -a
    }
}

pub fn fx_abs(a: i64) -> (r: i64)
    ensures
        r as int == sat_abs(a as int),
{
    if a == i64::MIN {
        i64::MAX
    } else if a < 0 {
        -a
    } else {
        a
    }
}

/// Magnitude of an `i64`, exact even for the minimum value.
fn abs_mag(a: i64) -> (r: u64)
    ensures
        r as int == sabs(a as int),
{
    if a >= 0 {
        a as u64
    } else {
        let w: i128 = -(a as i128);
        w as u64
    }
}

/// Reattaches a sign to an unsigned magnitude, saturating into the `i64` range.
fn clip_signed(q: u128, neg: bool) -> (r: i64)
    ensures
        r as int == sat64(if neg { -(q as int) } else { q as int }),
{
    if neg {
        if q >= 0x8000_0000_0000_0000u128 {
            i64::MIN
        } else {
            -(q as i64)
        }
    } else {
        if q > i64::MAX as u128 {
            i64::MAX
        } else {
            q as i64
        }
    }
}

/// The magnitude of a product is the product of the magnitudes, and its sign
/// is negative exactly when the factors' signs differ (unless it is zero).
proof fn lemma_abs_mul(a: int, b: int)
    ensures
        sabs(a * b) == sabs(a) * sabs(b),
        ((a < 0) == (b < 0)) ==> a * b >= 0,
        ((a < 0) != (b < 0)) ==> a * b <= 0,
{
    assert((if a * b < 0 { -(a * b) } else { a * b }) == (if a < 0 { -a } else { a }) * (if b < 0 {
        -b
    } else {
        b
    })) by (nonlinear_arith);
    assert(((a < 0) == (b < 0)) ==> a * b >= 0) by (nonlinear_arith);
    assert(((a < 0) != (b < 0)) ==> a * b <= 0) by (nonlinear_arith);
}

pub fn fx_mul(a: i64, b: i64) -> (r: i64)
    ensures
        r as int == sat_mul(a as int, b as int),
{
    let neg = (a < 0) != (b < 0);
    let ma: u64 = abs_mag(a);
    let mb: u64 = abs_mag(b);
    assert((ma as int) * (mb as int) < 0x100000000000000000000000000000000) by (nonlinear_arith)
        requires
            (ma as int) <= 0x8000000000000000,
            (mb as int) <= 0x8000000000000000,
    ;
    let p: u128 = (ma as u128) * (mb as u128);
    let q: u128 = p / (SCALE as u128);
    proof {
        lemma_abs_mul(a as int, b as int);
        assert(q as int == sabs((a as int) * (b as int)) / (SCALE as int));
        if neg {
            assert(tdiv((a as int) * (b as int), SCALE as int) == -(q as int));
        } else {
            assert(tdiv((a as int) * (b as int), SCALE as int) == q as int);
        }
    }
    clip_signed(q, neg)
}

pub fn fx_div(a: i64, b: i64) -> (r: i64)
    requires
        b != 0,
    ensures
        r as int == sat_div(a as int, b as int),
{
    let neg = (a < 0) != (b < 0);
    let ma: u64 = abs_mag(a);
    let mb: u64 = abs_mag(b);
    assert((ma as int) * (SCALE as int) < 0x100000000000000000000000000000000) by (nonlinear_arith)
        requires
            (ma as int) <= 0x8000000000000000,
    ;
    let p: u128 = (ma as u128) * (SCALE as u128);
    let q: u128 = p / (mb as u128);
    proof {
        lemma_abs_mul(a as int, SCALE as int);
        assert(q as int == sabs((a as int) * (SCALE as int)) / sabs(b as int));
        assert((a < 0) == ((a as int) * (SCALE as int) < 0) || (a as int) * (SCALE as int) == 0);
        if neg {
            assert(tdiv((a as int) * (SCALE as int), b as int) == -(q as int));
        } else {
            assert(tdiv((a as int) * (SCALE as int), b as int) == q as int);
        }
    }
    clip_signed(q, neg)
}

/// A scaled square is never negative.
pub proof fn lemma_sat_mul_self_nonneg(a: int)
    ensures
        0 <= sat_mul(a, a) <= i64::MAX as int,
{
    assert(a * a >= 0) by (nonlinear_arith);
    assert(sabs(a * a) / (SCALE as int) >= 0) by (nonlinear_arith)
        requires
            sabs(a * a) >= 0,
    ;
}

/// Scaling by zero gives zero.
pub proof fn lemma_sat_mul_zero(a: int)
    ensures
        sat_mul(a, 0) == 0,
        sat_mul(0, a) == 0,
{
    assert(a * 0 == 0 && 0 * a == 0) by (nonlinear_arith);
}

/// Scaled multiplication by a factor from the unit interval shrinks a
/// non-negative value: the product stays non-negative and at most the value.
pub proof fn lemma_sat_mul_unit(a: int, b: int)
    requires
        0 <= a <= ONE as int,
        0 <= b,
    ensures
        0 <= sat_mul(a, b) <= b,
        sat_mul(a, b) == sat_mul(b, a),
{
    let s = SCALE as int;
    assert(0 <= a * b && a * b <= s * b && a * b == b * a) by (nonlinear_arith)
        requires
            0 <= a <= s,
            0 <= b,
    ;
    vstd::arithmetic::div_mod::lemma_div_pos_is_pos(a * b, s);
    vstd::arithmetic::div_mod::lemma_div_is_ordered(a * b, s * b, s);
    vstd::arithmetic::div_mod::lemma_div_multiples_vanish(b, s);
}

/// Scaling by exactly one returns the value (clipped into range).
pub proof fn lemma_sat_mul_one(w: int)
    ensures
        sat_mul(ONE as int, w) == sat64(w),
        sat_mul(w, ONE as int) == sat64(w),
{
    let s = SCALE as int;
    assert(sabs(s * w) == s * sabs(w) && w * s == s * w) by (nonlinear_arith)
        requires
            sabs(w) == (if w < 0 { -w } else { w }),
            sabs(s * w) == (if s * w < 0 { -(s * w) } else { s * w }),
            s == 0x10000,
    ;
    vstd::arithmetic::div_mod::lemma_div_multiples_vanish(sabs(w), s);
}

/// Without saturation, the scaled product lies within one unit of the exact
/// ratio: `sat_mul(a, b) * SCALE` brackets `a * b` to within `SCALE`.
pub proof fn lemma_sat_mul_bracket(a: int, b: int)
    requires
        sabs(a * b) <= i64::MAX as int,
    ensures
        a * b - (SCALE as int) < sat_mul(a, b) * (SCALE as int),
        sat_mul(a, b) * (SCALE as int) < a * b + (SCALE as int),
{
    let s = SCALE as int;
    let n = a * b;
    let q = tdiv(n, s);
    vstd::arithmetic::div_mod::lemma_fundamental_div_mod(sabs(n), s);
    vstd::arithmetic::div_mod::lemma_div_pos_is_pos(sabs(n), s);
    assert(0 <= sabs(n) % s < s) by {
        vstd::arithmetic::div_mod::lemma_mod_bound(sabs(n), s);
    }
    assert(sabs(n) - s < (sabs(n) / s) * s <= sabs(n)) by (nonlinear_arith)
        requires
            sabs(n) == s * (sabs(n) / s) + sabs(n) % s,
            0 <= sabs(n) % s < s,
    ;
    if n >= 0 {
        assert(q == sabs(n) / s);
    } else {
        assert(q == -(sabs(n) / s));
        assert(q * s == -((sabs(n) / s) * s)) by (nonlinear_arith)
            requires
                q == -(sabs(n) / s),
    ;
    }
    vstd::arithmetic::div_mod::lemma_div_is_ordered(sabs(n), i64::MAX as int, s);
    vstd::arithmetic::div_mod::lemma_div_nonincreasing(i64::MAX as int, s);
    assert(sat_mul(a, b) == q);
}

/// Truncating division brackets the exact quotient: `tdiv(n, d) * d` lies
/// within `d` of `n` on either side.
pub proof fn lemma_tdiv_bracket(n: int, d: int)
    requires
        d > 0,
    ensures
        n - d < tdiv(n, d) * d,
        tdiv(n, d) * d < n + d,
{
    let q = tdiv(n, d);
    vstd::arithmetic::div_mod::lemma_fundamental_div_mod(sabs(n), d);
    vstd::arithmetic::div_mod::lemma_mod_bound(sabs(n), d);
    assert(sabs(n) - d < (sabs(n) / d) * d <= sabs(n)) by (nonlinear_arith)
        requires
            sabs(n) == d * (sabs(n) / d) + sabs(n) % d,
            0 <= sabs(n) % d < d,
    ;
    if n >= 0 {
        assert(q == sabs(n) / d);
    } else {
        assert(q == -(sabs(n) / d));
        assert(q * d == -((sabs(n) / d) * d)) by (nonlinear_arith)
            requires
                q == -(sabs(n) / d),
        ;
    }
}

/// Truncating division flips sign with its numerator.
pub proof fn lemma_tdiv_neg(n: int, d: int)
    requires
        d > 0,
    ensures
        tdiv(-n, d) == -tdiv(n, d),
{
}

/// The magnitude of a truncating quotient is the quotient of the magnitudes.
pub proof fn lemma_tdiv_mag(n: int, d: int)
    requires
        d > 0,
    ensures
        sabs(tdiv(n, d)) == sabs(n) / d,
{
    vstd::arithmetic::div_mod::lemma_div_pos_is_pos(sabs(n), d);
}

/// Truncating division by a positive divisor is monotone in the numerator.
pub proof fn lemma_tdiv_mono(x: int, y: int, d: int)
    requires
        x <= y,
        d > 0,
    ensures
        tdiv(x, d) <= tdiv(y, d),
{
    if x >= 0 {
        vstd::arithmetic::div_mod::lemma_div_is_ordered(x, y, d);
    } else if y < 0 {
        vstd::arithmetic::div_mod::lemma_div_is_ordered(-y, -x, d);
    } else {
        vstd::arithmetic::div_mod::lemma_div_pos_is_pos(-x, d);
        vstd::arithmetic::div_mod::lemma_div_pos_is_pos(y, d);
    }
}

/// Saturating fixed-point division by a positive divisor is monotone.
pub proof fn lemma_sat_div_mono(x: int, y: int, d: int)
    requires
        x <= y,
        d > 0,
    ensures
        sat_div(x, d) <= sat_div(y, d),
{
    assert(x * (SCALE as int) <= y * (SCALE as int)) by (nonlinear_arith)
        requires
            x <= y,
    ;
    lemma_tdiv_mono(x * (SCALE as int), y * (SCALE as int), d);
}

/// Floor of the square root of a natural number.
pub open spec fn sqrt_floor(n: nat) -> nat
    decreases n,
{
    if n == 0 {
        0
    } else {
        let r = sqrt_floor((n - 1) as nat);
        if (r + 1) * (r + 1) <= n {
            r + 1
        } else {
            r
        }
    }
}

/// Fixed-point square root of a non-positive scalar is zero; otherwise it is
/// the floor square root of the value scaled up once more (so the result is
/// again a 16.16 scalar).
pub open spec fn sat_sqrt(a: int) -> int {
    if a <= 0 {
        0
    } else {
        sqrt_floor((a * (SCALE as int)) as nat) as int
    }
}

pub proof fn lemma_sqrt_floor_bounds(n: nat)
    ensures
        (sqrt_floor(n) as int) * (sqrt_floor(n) as int) <= n as int,
        (n as int) < ((sqrt_floor(n) + 1) as int) * ((sqrt_floor(n) + 1) as int),
    decreases n,
{
    if n == 0 {
        assert((0int) * (0int) == 0 && (1int) * (1int) == 1) by (nonlinear_arith);
    } else {
        lemma_sqrt_floor_bounds((n - 1) as nat);
        let r = sqrt_floor((n - 1) as nat) as int;
        if (sqrt_floor((n - 1) as nat) + 1) * (sqrt_floor((n - 1) as nat) + 1) <= n {
            assert(sqrt_floor(n) as int == r + 1);
            assert((r + 1) * (r + 1) <= n as int && (n as int) < ((r + 1) + 1) * ((r + 1) + 1)) by (
            nonlinear_arith)
                requires
                    (n as int) - 1 < (r + 1) * (r + 1),
                    ((sqrt_floor((n - 1) as nat) + 1) as int) * ((sqrt_floor((n - 1) as nat)
                        + 1) as int) <= n as int,
                    r == sqrt_floor((n - 1) as nat) as int,
            ;
        } else {
            assert(sqrt_floor(n) as int == r);
            assert(r * r <= n as int && (n as int) < (r + 1) * (r + 1)) by (nonlinear_arith)
                requires
                    r * r <= (n as int) - 1,
                    !(((sqrt_floor((n - 1) as nat) + 1) as int) * ((sqrt_floor((n - 1) as nat)
                        + 1) as int) <= n as int),
                    r == sqrt_floor((n - 1) as nat) as int,
            ;
        }
    }
}

pub proof fn lemma_sqrt_unique(n: nat, r: nat)
    requires
        (r as int) * (r as int) <= n as int,
        (n as int) < ((r + 1) as int) * ((r + 1) as int),
    ensures
        r == sqrt_floor(n),
{
    lemma_sqrt_floor_bounds(n);
    let s = sqrt_floor(n);
    assert(r as int == s as int) by (nonlinear_arith)
        requires
            (r as int) * (r as int) <= n as int,
            (n as int) < ((r + 1) as int) * ((r + 1) as int),
            (s as int) * (s as int) <= n as int,
            (n as int) < ((s + 1) as int) * ((s + 1) as int),
            r >= 0,
            s >= 0,
    ;
}

/// A square root of anything at least `65536` is at least `256`.
pub proof fn lemma_sqrt_pos(n: nat)
    requires
        n >= 0x10000,
    ensures
        sqrt_floor(n) >= 0x100,
{
    lemma_sqrt_floor_bounds(n);
    let r = sqrt_floor(n) as int;
    assert(r >= 0x100) by (nonlinear_arith)
        requires
            (n as int) < (r + 1) * (r + 1),
            n >= 0x10000,
            r >= 0,
    ;
}

/// Floor square root by bisection.
fn isqrt_u128(n: u128) -> (r: u128)
    ensures
        r as nat == sqrt_floor(n as nat),
        (r as int) * (r as int) <= n as int,
        (n as int) < (r as int + 1) * (r as int + 1),
{
    if n == 0 {
        proof {
            assert((0int + 1) * (0int + 1) == 1) by (nonlinear_arith);
            lemma_sqrt_unique(0, 0);
        }
        return 0;
    }
    let mut lo: u128 = 0;
    let mut hi: u128 = 0x1_0000_0000_0000_0000u128;
    proof {
        assert((hi as int) * (hi as int) > n as int) by (nonlinear_arith)
            requires
                hi as int == 0x10000000000000000,
                (n as int) < 0x100000000000000000000000000000000,
        ;
    }
    while lo + 1 < hi
        invariant
            lo < hi,
            hi <= 0x1_0000_0000_0000_0000u128,
            (lo as int) * (lo as int) <= n as int,
            (hi as int) * (hi as int) > n as int,
        decreases hi - lo,
    {
        let mid: u128 = lo + (hi - lo) / 2;
        assert((mid as int) * (mid as int) < 0x100000000000000000000000000000000) by (
        nonlinear_arith)
            requires
                (mid as int) < 0x10000000000000000,
        ;
        if mid * mid <= n {
            lo = mid;
        } else {
            hi = mid;
        }
    }
    proof {
        lemma_sqrt_unique(n as nat, lo as nat);
    }
    lo
}

pub fn fx_sqrt(a: i64) -> (r: i64)
    ensures
        r as int == sat_sqrt(a as int),
        r >= 0,
{
    if a <= 0 {
        return 0;
    }
    assert((a as int) * (SCALE as int) < 0x100000000000000000000000000000000) by (nonlinear_arith)
        requires
            0 < (a as int) && (a as int) < 0x8000000000000000,
    ;
    let p: u128 = (a as u128) * (SCALE as u128);
    let r: u128 = isqrt_u128(p);
    proof {
        assert((r as int) < 0x8000000000000000) by (nonlinear_arith)
            requires
                (r as int) * (r as int) <= p as int,
                (p as int) < 0x80000000000000000000,
        ;
    }
    r as i64
}

/// Plain integer division of a non-negative value by a positive one.
pub fn div_floor_nonneg(a: i64, b: i64) -> (r: i64)
    requires
        a >= 0,
        b > 0,
    ensures
        r as int == (a as int) / (b as int),
        r >= 0,
{
    let q: u64 = (a as u64) / (b as u64);
    proof {
        vstd::arithmetic::div_mod::lemma_div_pos_is_pos(a as int, b as int);
        vstd::arithmetic::div_mod::lemma_div_is_ordered(a as int, i64::MAX as int, b as int);
        vstd::arithmetic::div_mod::lemma_div_nonincreasing(i64::MAX as int, b as int);
    }
    q as i64
}

} // verus!
