//! A three-dimensional octree sketch: the 8-way analogue of the quadtree's
//! subdivision, over fixed-point coordinates.
use vstd::prelude::*;

use crate::body::Body;
use crate::fixed::{sat64, tdiv, Scalar};

verus! {

/// A point in space.
#[derive(Clone, Copy, PartialEq, Eq, Structural, Debug)]
pub struct Vec3 {
    pub x: Scalar,
    pub y: Scalar,
    pub z: Scalar,
}

impl Vec3 {
    /// The vector with the given components.
    pub fn new(x: Scalar, y: Scalar, z: Scalar) -> (r: Vec3)
        ensures
            r == (Vec3 { x, y, z }),
    {
        Vec3 { x, y, z }
    }
}

/// One coordinate of the center of a region: half the corner sum, truncated
/// toward zero.
pub open spec fn mid3(a: int, b: int) -> int {
    tdiv(sat64(a + b), 2)
}

/// The center point of the region between two corners.
pub open spec fn center_spec(a: Vec3, b: Vec3) -> Vec3 {
    Vec3 {
        x: Scalar { raw: mid3(a.x.v(), b.x.v()) as i64 },
        y: Scalar { raw: mid3(a.y.v(), b.y.v()) as i64 },
        z: Scalar { raw: mid3(a.z.v(), b.z.v()) as i64 },
    }
}

/// An octree region with its corners, an optional body, optional
/// subregions, and its aggregate mass data.
#[derive(Debug)]
pub struct Octree {
    pub left_top_back_corner: Vec3,
    pub right_bottom_front_corner: Vec3,
    pub body: Option<Body>,
    pub subregions: Option<Vec<Octree>>,
    pub center: Vec3,
    pub center_of_mass: Vec3,
    pub total_mass: Scalar,
}

/// The value `Octree::new` produces for a pair of corners.
pub open spec fn oct_new_spec(c0: Vec3, c1: Vec3) -> Octree {
    Octree {
        left_top_back_corner: c0,
        right_bottom_front_corner: c1,
        body: None,
        subregions: None,
        center: center_spec(c0, c1),
        center_of_mass: Vec3 {
            x: Scalar { raw: 0 },
            y: Scalar { raw: 0 },
            z: Scalar { raw: 0 },
        },
        total_mass: Scalar { raw: 0 },
    }
}

/// Spec-level equality of the fields `Octree::new` sets (the `subregions`
/// vector is compared by its model).
pub open spec fn oct_matches(o: Octree, c0: Vec3, c1: Vec3) -> bool {
    &&& o.left_top_back_corner == c0
    &&& o.right_bottom_front_corner == c1
    &&& o.body is None
    &&& o.subregions is None
    &&& o.center == center_spec(c0, c1)
    &&& o.center_of_mass == (Vec3 {
        x: Scalar { raw: 0 },
        y: Scalar { raw: 0 },
        z: Scalar { raw: 0 },
    })
    &&& o.total_mass.v() == 0
}

impl Octree {
    /// A fresh region between the two given corners, with its center
    /// precomputed and no body, subregions or mass.
    pub fn new(corners: [Vec3; 2]) -> (r: Octree)
        ensures
            oct_matches(r, corners[0], corners[1]),
    {
        Octree {
            left_top_back_corner: corners[0],
            right_bottom_front_corner: corners[1],
            body: None,
            subregions: None,
            center: Self::calculate_center(corners[0], corners[1]),
            center_of_mass: Vec3 {
                x: Scalar { raw: 0 },
                y: Scalar { raw: 0 },
                z: Scalar { raw: 0 },
            },
            total_mass: Scalar { raw: 0 },
        }
    }

    /// The center of the region between two corners: the half of the
    /// corner sum on each axis.
    pub fn calculate_center(top_left_back_corner: Vec3, bottom_right_front_corner: Vec3) -> (r:
        Vec3)
        ensures
            r == center_spec(top_left_back_corner, bottom_right_front_corner),
    {
        Vec3 {
            x: bottom_right_front_corner.x.add(top_left_back_corner.x).half(),
            y: bottom_right_front_corner.y.add(top_left_back_corner.y).half(),
            z: bottom_right_front_corner.z.add(top_left_back_corner.z).half(),
        }
    }

    /// Partition the region into its eight subregions around the center.
    pub fn subdivide(&mut self)
        ensures
            final(self).left_top_back_corner == old(self).left_top_back_corner,
            final(self).right_bottom_front_corner == old(self).right_bottom_front_corner,
            final(self).body == old(self).body,
            final(self).center == old(self).center,
            final(self).center_of_mass == old(self).center_of_mass,
            final(self).total_mass == old(self).total_mass,
            final(self).subregions is Some,
            ({
                let v = final(self).subregions->0@;
                let l = old(self).left_top_back_corner;
                let r = old(self).right_bottom_front_corner;
                let c = old(self).center;
                &&& v.len() == 8
                &&& oct_matches(
                    v[0],
                    Vec3 { x: l.x, y: r.y, z: c.z },
                    Vec3 { x: c.x, y: c.y, z: r.z },
                )
                &&& oct_matches(
                    v[1],
                    Vec3 { x: c.x, y: l.y, z: c.z },
                    Vec3 { x: r.x, y: c.y, z: r.z },
                )
                &&& oct_matches(
                    v[2],
                    Vec3 { x: l.x, y: c.y, z: c.z },
                    Vec3 { x: c.x, y: r.y, z: r.z },
                )
                &&& oct_matches(
                    v[3],
                    Vec3 { x: c.x, y: c.y, z: c.z },
                    Vec3 { x: r.x, y: l.y, z: r.z },
                )
                &&& oct_matches(
                    v[4],
                    Vec3 { x: l.x, y: l.y, z: l.z },
                    Vec3 { x: c.x, y: c.y, z: c.z },
                )
                &&& oct_matches(
                    v[5],
                    Vec3 { x: c.x, y: l.y, z: l.z },
                    Vec3 { x: r.x, y: c.y, z: c.z },
                )
                &&& oct_matches(
                    v[6],
                    Vec3 { x: l.x, y: c.y, z: l.z },
                    Vec3 { x: c.x, y: r.y, z: c.z },
                )
                &&& oct_matches(
                    v[7],
                    Vec3 { x: c.x, y: c.y, z: l.z },
                    Vec3 { x: r.x, y: r.y, z: c.z },
                )
            }),
    {
        let l = self.left_top_back_corner;
        let r = self.right_bottom_front_corner;
        let c = self.center;
        let mut v: Vec<Octree> = Vec::new();
        v.push(Octree::new([Vec3::new(l.x, r.y, c.z), Vec3::new(c.x, c.y, r.z)]));
        v.push(Octree::new([Vec3::new(c.x, l.y, c.z), Vec3::new(r.x, c.y, r.z)]));
        v.push(Octree::new([Vec3::new(l.x, c.y, c.z), Vec3::new(c.x, r.y, r.z)]));
        v.push(Octree::new([Vec3::new(c.x, c.y, c.z), Vec3::new(r.x, l.y, r.z)]));
        v.push(Octree::new([Vec3::new(l.x, l.y, l.z), Vec3::new(c.x, c.y, c.z)]));
        v.push(Octree::new([Vec3::new(c.x, l.y, l.z), Vec3::new(r.x, c.y, c.z)]));
        v.push(Octree::new([Vec3::new(l.x, c.y, l.z), Vec3::new(c.x, r.y, c.z)]));
        v.push(Octree::new([Vec3::new(c.x, c.y, l.z), Vec3::new(r.x, r.y, c.z)]));
        self.subregions = Some(v);
    }
}

} // verus!
