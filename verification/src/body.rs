//! A point mass: position, velocity, an accumulating force vector, and an
//! identity used for self-exclusion during the force traversal.
use vstd::prelude::*;

use crate::fixed::{Scalar, SCALE};
use crate::vec2::Vec2;

verus! {

/// A point mass.  `force` accumulates during one step and is reset by the
/// integrator.  `id` identifies the body inside the driver's collection, so
/// that a body never exerts force on itself, even when two distinct bodies
/// share a position.
#[derive(Clone, Copy, PartialEq, Eq, Structural, Debug)]
pub struct Body {
    pub pos: Vec2,
    pub acceleration: Vec2,
    pub velocity: Vec2,
    pub mass: Scalar,
    pub force: Vec2,
    pub id: usize,
}

impl Body {
    /// A body at the origin with zero mass and identity 0.
    pub fn new() -> (b: Body)
        ensures
            b == Body::default_spec(),
    {
        Body {
            pos: Vec2::zero(),
            acceleration: Vec2::zero(),
            velocity: Vec2::zero(),
            mass: Scalar { raw: 0 },
            force: Vec2::zero(),
            id: 0,
        }
    }

    /// The value `Body::new` returns.
    pub open spec fn default_spec() -> Body {
        Body {
            pos: Vec2 { x: Scalar { raw: 0 }, y: Scalar { raw: 0 } },
            acceleration: Vec2 { x: Scalar { raw: 0 }, y: Scalar { raw: 0 } },
            velocity: Vec2 { x: Scalar { raw: 0 }, y: Scalar { raw: 0 } },
            mass: Scalar { raw: 0 },
            force: Vec2 { x: Scalar { raw: 0 }, y: Scalar { raw: 0 } },
            id: 0,
        }
    }

    /// A resting body of the given mass at the origin.
    pub fn with_mass(mass: Scalar) -> (b: Body)
        ensures
            b == (Body { mass, ..Body::default_spec() }),
    {
        Body { mass, ..Body::new() }
    }

    /// A resting body of the given mass at the given position.
    pub fn with_mass_and_pos(mass: Scalar, pos: Vec2) -> (b: Body)
        ensures
            b == (Body { mass, pos, ..Body::default_spec() }),
    {
        Body { mass, pos, ..Body::new() }
    }

    /// A resting body of unit mass at the given position.
    pub fn with_pos(pos: Vec2) -> (b: Body)
        ensures
            b == (Body { mass: Scalar { raw: SCALE }, pos, ..Body::default_spec() }),
    {
        Body { mass: Scalar { raw: SCALE }, pos, ..Body::new() }
    }
}

} // verus!
