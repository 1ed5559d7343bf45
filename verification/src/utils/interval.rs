//! Closed intervals of scalars.
use crate::fixed::{in_range, Fixed};
use vstd::prelude::*;

verus! {

/// Whether `value` lies in the closed interval from `min` to `max`.
pub open spec fn interval_contains(min: int, max: int, value: int) -> bool {
    min <= value <= max
}

/// Whether `value` lies outside the closed interval from `min` to `max`.
pub open spec fn interval_surrounds(min: int, max: int, value: int) -> bool {
    value < min || value > max
}

/// `value` moved to the nearest bound if it lies outside; the lower bound
/// is tested first.
pub open spec fn interval_clamp(min: int, max: int, value: int) -> int {
    if value < min {
        min
    } else if value > max {
        max
    } else {
        value
    }
}

/// The closed interval `[min, max]`; it is empty when `min > max`.
#[derive(Copy, Clone, Debug)]
pub struct Interval {
    pub min: Fixed,
    pub max: Fixed,
}

impl View for Interval {
    type V = (int, int);

    open spec fn view(&self) -> (int, int) {
        (self.min@, self.max@)
    }
}

impl Interval {
    /// The interval from `mi` to `ma`.
    pub fn new(mi: Fixed, ma: Fixed) -> (r: Interval)
        ensures
            r.min == mi,
            r.max == ma,
    {
        Interval { min: mi, max: ma }
    }

    /// A copy of `interval`, which is left as it was.
    pub fn from(interval: &mut Interval) -> (r: Interval)
        ensures
            r == *old(interval),
            *final(interval) == *old(interval),
    {
        Interval { min: interval.min, max: interval.max }
    }

    /// `max - min`, saturated.
    pub fn size(&self) -> (r: Fixed)
        ensures
            r@ == crate::fixed::fx_sub(self.max@, self.min@),
    {
        self.max - self.min
    }

    /// Whether `value` lies in the interval, bounds included.
    pub fn contains(&self, value: Fixed) -> (r: bool)
        ensures
            r == interval_contains(self.min@, self.max@, value@),
    {
        value.raw() >= self.min.raw() && value.raw() <= self.max.raw()
    }

    /// Whether `value` lies outside the interval.
    pub fn surrounds(&self, value: Fixed) -> (r: bool)
        ensures
            r == interval_surrounds(self.min@, self.max@, value@),
    {
        value.raw() < self.min.raw() || value.raw() > self.max.raw()
    }

    /// Whether the wide raw count `value` lies outside the interval.
    pub fn surrounds_wide(&self, value: i128) -> (r: bool)
        ensures
            r == interval_surrounds(self.min@, self.max@, value as int),
            !r ==> in_range(value as int),
    {
        value < self.min.raw() as i128 || value > self.max.raw() as i128
    }

    /// `value`, moved to the nearest bound if it lies outside.
    pub fn clamp(&self, value: Fixed) -> (r: Fixed)
        ensures
            r@ == interval_clamp(self.min@, self.max@, value@),
    {
        if value.raw() < self.min.raw() {
            return self.min;
        } else if value.raw() > self.max.raw() {
            return self.max;
        }
        value
    }
}

} // verus!
