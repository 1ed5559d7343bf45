//! Constants of the renderer.
use super::interval::Interval;
use crate::fixed::{Fixed, LIMIT};
use vstd::prelude::*;

verus! {

/// Raw count of pi, to five decimals.
pub const PI_RAW: i32 = 314_159;

/// Raw count of the smallest positive scalar.
pub const EPSILON_RAW: i32 = 1;

/// Pi, to five decimals.
/// Raw count of the upper bound of a displayable channel: `0.999`.
pub const INTENSITY_MAX_RAW: i32 = 99_900;

/// The largest number of primitives that a scene is meant to hold.
pub const MAX_OBJECTS_ONSCREEN: u32 = 100;

pub fn pi() -> (r: Fixed)
    ensures
        r@ == PI_RAW,
{
    Fixed::saturating(PI_RAW as i128)
}

/// The largest scalar, which stands for an unbounded distance.
pub fn infinity() -> (r: Fixed)
    ensures
        r@ == LIMIT,
{
    Fixed::saturating(LIMIT as i128)
}

/// The smallest positive scalar; two scalars closer than this are equal.
pub fn epsilon() -> (r: Fixed)
    ensures
        r@ == EPSILON_RAW,
{
    Fixed::saturating(EPSILON_RAW as i128)
}

/// The interval of all scalars.
pub fn universe() -> (r: Interval)
    ensures
        r@ == (-(LIMIT as int), LIMIT as int),
{
    Interval { min: infinity().negated(), max: infinity() }
}

/// An interval that holds no scalar.
pub fn empty() -> (r: Interval)
    ensures
        r@ == (LIMIT as int, -(LIMIT as int)),
{
    Interval { min: infinity(), max: infinity().negated() }
}

/// The interval of the intensities of a channel that are told apart,
/// `[0, 0.999]`.
pub fn intensity() -> (r: Interval)
    ensures
        r@ == (0int, INTENSITY_MAX_RAW as int),
{
    Interval { min: Fixed::zero(), max: Fixed::saturating(INTENSITY_MAX_RAW as i128) }
}

} // verus!
