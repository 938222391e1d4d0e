//! Settings for generating particles in a belt around a centre point.

use vstd::prelude::*;

verus! {

/// Which way the particles of a belt travel around its centre.
#[derive(Debug, Clone, Copy, PartialEq, Eq, Structural)]
pub enum Direction {
    /// clockwise
    CW,
    /// counter clockwise
    CCW,
}

impl Default for Direction {
    /// Counter clockwise is the default.
    fn default() -> (d: Self)
        ensures
            d == Direction::CCW,
    {
        Direction::CCW
    }
}

} // verus!
