//! Tests of the octree sketch.
use barnes_hut::fixed::Scalar;
use barnes_hut::octree::{Octree, Vec3};

fn v3(x: i64, y: i64, z: i64) -> Vec3 {
    Vec3::new(Scalar::from_int(x), Scalar::from_int(y), Scalar::from_int(z))
}

#[test]
fn oct_center() {
    let center = Octree::calculate_center(v3(5, 5, 5), v3(10, 10, 10));
    let expected_center = Vec3::new(
        Scalar::from_raw(7_500_000),
        Scalar::from_raw(7_500_000),
        Scalar::from_raw(7_500_000),
    );
    assert_eq!(center, expected_center);
}

#[test]
fn oct_subdivide() {
}
