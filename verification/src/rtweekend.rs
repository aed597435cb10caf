//! Shared constants and the source of randomness.
//!
//! Randomness enters the renderer only through [`Sampler`]: either the
//! thread-local generator of the `rand` crate, or a caller-chosen constant,
//! which makes a whole render deterministic and testable.

use crate::fixed::{fx_add, fx_div, fx_mul, fx_sub, sat_add, sat_div, sat_mul, sat_sub, ONE};
use vstd::prelude::*;

verus! {

/// The stand-in for an unbounded parameter value: the largest scalar.
pub const INF: i64 = i64::MAX;

/// The circle constant in 16.16 fixed point.
pub const PI: i64 = 205887;

/// Relies on rand::thread_rng for the thread-local generator and on
/// rand::Rng::gen_range for a value uniformly distributed in the half-open
/// range given to it.  The range here is constant and never empty, so the
/// sampling itself cannot panic; the generator's first initialization can
/// still abort if the operating system's entropy source fails, as any
/// allocation can.
#[verifier::external_body]
fn sample_scaled_unit() -> (r: i64)
    ensures
        0 <= r < ONE,
{
    rand::Rng::gen_range(&mut rand::thread_rng(), 0i64..0x10000i64)
}

/// A source of scalar draws in `[0, 1)`.
///
/// `entropy()` draws fresh values; `constant(v)` always answers `v`, so a
/// render driven by it is reproducible.
#[derive(Clone, Copy)]
pub struct Sampler {
    fixed: Option<i64>,
}

impl Sampler {
    /// Every draw the sampler can answer lies in `[0, 1)`.
    pub closed spec fn wf(&self) -> bool {
        match self.fixed {
            Some(v) => 0 <= v < ONE,
            None => true,
        }
    }

    /// The constant this sampler always answers, if it is one.
    pub closed spec fn as_constant(&self) -> Option<i64> {
        self.fixed
    }

    pub fn entropy() -> (r: Sampler)
        ensures
            r.wf(),
            r.as_constant() is None,
    {
        Sampler { fixed: None }
    }

    pub fn constant(v: i64) -> (r: Sampler)
        requires
            0 <= v < ONE,
        ensures
            r.wf(),
            r.as_constant() == Some(v),
    {
        Sampler { fixed: Some(v) }
    }

    /// One draw in `[0, 1)`; a constant sampler answers its constant.
    pub fn next_unit(&self) -> (r: i64)
        requires
            self.wf(),
        ensures
            0 <= r < ONE,
            self.as_constant() matches Some(v) ==> r == v,
    {
        match self.fixed {
            Some(v) => v,
            None => sample_scaled_unit(),
        }
    }
}

/// A draw placed linearly into `[min, max)`: `min + u * (max - min)`.
pub open spec fn rr_of(min: int, max: int, u: int) -> int {
    sat_add(min, sat_mul(u, sat_sub(max, min)))
}

/// A draw in `[0, 1)`.
pub fn random_double(smp: &Sampler) -> (r: i64)
    requires
        smp.wf(),
    ensures
        0 <= r < ONE,
        smp.as_constant() matches Some(v) ==> r == v,
{
    smp.next_unit()
}

/// A draw placed linearly into `[min, max)`: `min + u * (max - min)` for some
/// unit draw `u`.
pub fn random_double_range(min: i64, max: i64, smp: &Sampler) -> (r: i64)
    requires
        smp.wf(),
    ensures
        exists|u: int| #![auto] 0 <= u < ONE && r as int == rr_of(min as int, max as int, u),
        smp.as_constant() matches Some(v) ==> r as int == rr_of(min as int, max as int, v as int),
{
    let u: i64 = smp.next_unit();
    let r: i64 = fx_add(min, fx_mul(u, fx_sub(max, min)));
    proof {
        assert(0 <= (u as int) < ONE && r as int == rr_of(min as int, max as int, u as int));
    }
    r
}

/// Degrees to radians: `d * pi / 180`.
pub fn degrees_to_radians(degrees: i64) -> (r: i64)
    ensures
        r as int == sat_div(sat_mul(degrees as int, PI as int), 180 * (ONE as int)),
{
    fx_div(fx_mul(degrees, PI), 180 * ONE)
}

} // verus!
