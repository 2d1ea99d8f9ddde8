//! Closed numeric ranges over fixed-point scalars.

use vstd::prelude::*;

verus! {

/// A numeric range [min, max] of fixed-point scalars.
#[derive(Clone, Copy, Debug)]
pub struct Interval {
    pub min: i64,
    pub max: i64,
}

impl Interval {
    pub fn new(min: i64, max: i64) -> (r: Self)
        ensures
            r.min == min,
            r.max == max,
    {
        Self { min, max }
    }

    /// Strict containment at both ends.
    pub fn surrounds(&self, x: i64) -> (b: bool)
        ensures
            b == (self.min < x && x < self.max),
    {
        self.min < x && x < self.max
    }

    /// Saturate `x` into the range.
    pub fn clamp(&self, x: i64) -> (r: i64)
        ensures
            r == (if x < self.min {
                self.min as int
            } else if x > self.max {
                self.max as int
            } else {
                x as int
            }),
    {
        if x < self.min {
            self.min
        } else if x > self.max {
            self.max
        } else {
            x
        }
    }
}

} // verus!
