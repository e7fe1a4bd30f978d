//! Tests of the force law and the symplectic-Euler integrator.
use barnes_hut::body::Body;
use barnes_hut::fixed::{Scalar, SCALE};
use barnes_hut::gravity;
use barnes_hut::simulation::Simulation;
use barnes_hut::vec2::Vec2;

fn s(units: i64) -> Scalar {
    Scalar::from_int(units)
}

fn v(x: i64, y: i64) -> Vec2 {
    Vec2::new(s(x), s(y))
}

#[test]
fn integrator_uses_pre_update_velocity() {
    // position 0, velocity 1, force 0, mass 1, dt 1: the position advances
    // by the old velocity, the velocity is unchanged, the accumulator stays
    // cleared.
    let mut b = Body::with_mass_and_pos(s(1), v(0, 0));
    b.velocity = v(1, 0);
    gravity::apply_force(&mut b, s(1));
    assert_eq!(b.pos.x, s(1));
    assert_eq!(b.velocity.x, s(1));
    assert_eq!(b.force.x.raw, 0);
    assert_eq!(b.force.y.raw, 0);
}

#[test]
fn integrator_resets_the_accumulator() {
    let mut b = Body::with_mass_and_pos(s(2), v(3, 4));
    b.force = v(10, -6);
    gravity::apply_force(&mut b, Scalar::from_raw(gravity::DT_RAW));
    assert_eq!(b.force, v(0, 0));
    // acceleration = force / mass
    assert_eq!(b.acceleration, v(5, -3));
}

#[test]
fn pairwise_force_is_equal_and_opposite() {
    let mut a = Body::with_mass_and_pos(s(50), v(0, 0));
    let mut b = Body::with_mass_and_pos(s(50), v(10, 7));
    gravity::calculate_force_single(&mut a, &mut b);
    assert_eq!(a.force.x.raw, -b.force.x.raw);
    assert_eq!(a.force.y.raw, -b.force.y.raw);
    // attraction: the body at the origin is pulled toward positive x and y
    assert!(a.force.x.raw > 0);
    assert!(a.force.y.raw > 0);
}

#[test]
fn coincident_bodies_exert_no_force() {
    // the softening term keeps the denominator positive, so two bodies at
    // the same point exchange exactly zero force instead of blowing up
    let mut a = Body::with_mass_and_pos(s(5), v(7, 7));
    let mut b = Body::with_mass_and_pos(s(5), v(7, 7));
    gravity::calculate_force_single(&mut a, &mut b);
    assert_eq!(a.force, v(0, 0));
    assert_eq!(b.force, v(0, 0));
}

#[test]
fn two_body_force_magnitude() {
    // masses 1 at distance 2 on the x axis: G*m*m = 5, |d|^2 + eps = 5,
    // so the pull is 5 * 2 / 5^1.5 = 0.894427... toward the other body.
    let mut a = Body::with_pos(v(0, 0));
    let mut b = Body::with_pos(v(2, 0));
    gravity::calculate_force_single(&mut a, &mut b);
    assert_eq!(a.force.y.raw, 0);
    assert!(a.force.x.raw > 0);
    let expected: i64 = 894_427;
    assert!((a.force.x.raw - expected).abs() <= 2);
}

#[test]
fn slice_pair_variant_matches_single() {
    let a = Body::with_mass_and_pos(s(9), v(1, 2));
    let b = Body::with_mass_and_pos(s(4), v(30, 17));
    let mut pair = vec![a, b];
    gravity::calculate_force(&mut pair);
    let mut a2 = a;
    let mut b2 = b;
    gravity::calculate_force_single(&mut a2, &mut b2);
    assert_eq!(pair[0], a2);
    assert_eq!(pair[1], b2);
}

#[test]
fn naive_update_moves_bodies_toward_each_other() {
    let mut sim = Simulation::new();
    sim.bodies.push(Body::with_mass_and_pos(s(1000), v(0, 0)));
    sim.bodies.push(Body::with_mass_and_pos(s(1000), v(10, 0)));
    for _ in 0..100 {
        sim.update();
    }
    assert!(sim.bodies[0].pos.x.raw > 0);
    assert!(sim.bodies[1].pos.x.raw < 10 * SCALE);
    // momentum stays zero: displacements mirror each other
    assert_eq!(sim.bodies[0].pos.x.raw, 10 * SCALE - sim.bodies[1].pos.x.raw);
}

#[test]
fn square_lays_out_a_grid() {
    let mut sim = Simulation::new();
    sim.square(3, s(100));
    assert_eq!(sim.bodies.len(), 9);
    assert_eq!(sim.bodies[0].pos, v(100, 100));
    assert_eq!(sim.bodies[1].pos, v(100, 101));
    assert_eq!(sim.bodies[3].pos, v(101, 100));
    assert_eq!(sim.bodies[8].pos, v(102, 102));
    assert_eq!(sim.bodies[4].mass, s(1));
}
