//! A two-dimensional vector of fixed-point scalars.
use vstd::prelude::*;

use crate::fixed::Scalar;

verus! {

/// A point or displacement in the plane.
#[derive(Clone, Copy, PartialEq, Eq, Structural, Debug)]
pub struct Vec2 {
    pub x: Scalar,
    pub y: Scalar,
}

impl Vec2 {
    /// The vector with the given components.
    pub fn new(x: Scalar, y: Scalar) -> (r: Vec2)
        ensures
            r.x == x,
            r.y == y,
    {
        Vec2 { x, y }
    }

    /// The origin.
    pub fn zero() -> (r: Vec2)
        ensures
            r.x.v() == 0,
            r.y.v() == 0,
    {
        Vec2 { x: Scalar { raw: 0 }, y: Scalar { raw: 0 } }
    }
}

} // verus!
