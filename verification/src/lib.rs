//! A verified Barnes-Hut N-body core: a quadtree spatial partition with
//! bottom-up mass aggregation, an opening-angle force traversal with a
//! softened gravitational law, a symplectic-Euler integrator, and the
//! simulation drivers that run one discrete step at a time.
//!
//! All quantities are fixed-point scalars (see [`fixed`]), so every result is
//! pinned down exactly by the contracts.
pub mod bh_runner;
pub mod body;
pub mod canvas;
pub mod fixed;
pub mod gravity;
pub mod octree;
pub mod quadtree;
pub mod simulation;
pub mod vec2;

use vstd::prelude::*;

verus! {

} // verus!
