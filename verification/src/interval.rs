//! A closed scalar range, used for valid hit-parameter windows and for
//! clamping color channels.

use crate::fixed::{fx_sub, sat_sub};
use vstd::prelude::*;

verus! {

#[derive(Clone, Copy, PartialEq, Eq, Structural, Debug)]
pub struct Interval {
    pub min: i64,
    pub max: i64,
}

pub open spec fn itv_contains(i: Interval, x: int) -> bool {
    (i.min as int) <= x && x <= i.max as int
}

pub open spec fn itv_surrounds(i: Interval, x: int) -> bool {
    (i.min as int) < x && x < i.max as int
}

pub open spec fn itv_clamp(i: Interval, x: int) -> int {
    if x < i.min as int {
        i.min as int
    } else if x > i.max as int {
        i.max as int
    } else {
        x
    }
}

impl Interval {
    pub fn new(min: i64, max: i64) -> (r: Interval)
        ensures
            r == (Interval { min, max }),
    {
        Interval { min, max }
    }

    pub fn size(&self) -> (r: i64)
        ensures
            r as int == sat_sub(self.max as int, self.min as int),
    {
        fx_sub(self.max, self.min)
    }

    /// Membership in the closed range.
    pub fn contains(&self, x: i64) -> (r: bool)
        ensures
            r == itv_contains(*self, x as int),
    {
        self.min <= x && x <= self.max
    }

    /// Membership in the open range.
    pub fn surrounds(&self, x: i64) -> (r: bool)
        ensures
            r == itv_surrounds(*self, x as int),
    {
        self.min < x && x < self.max
    }

    /// The nearest point of the range.
    pub fn clamp(&self, x: i64) -> (r: i64)
        ensures
            r as int == itv_clamp(*self, x as int),
    {
        if x < self.min {
            self.min
        } else if x > self.max {
            self.max
        } else {
            x
        }
    }
}

} // verus!
