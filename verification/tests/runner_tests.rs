//! Tests of the Barnes-Hut driver: boundary refit, traversal exactness and
//! the end-to-end symmetric two-body step.
use barnes_hut::bh_runner::BarnesHutRunner;
use barnes_hut::body::Body;
use barnes_hut::fixed::Scalar;
use barnes_hut::gravity;
use barnes_hut::quadtree::{Quadtree, Rectangle};
use barnes_hut::vec2::Vec2;

fn s(units: i64) -> Scalar {
    Scalar::from_int(units)
}

fn v(x: i64, y: i64) -> Vec2 {
    Vec2::new(s(x), s(y))
}

#[test]
fn test_resize() {
    let rec: Rectangle = Rectangle::new(v(0, 0), v(100, 100));
    let mut qt: Quadtree = Quadtree::new(rec, 1);
    let mut bodies: Vec<Body> = Vec::new();
    let mut runner: BarnesHutRunner = BarnesHutRunner::from_theta(Scalar::from_raw(500_000));
    bodies.push(Body::with_pos(v(110, 1)));
    bodies.push(Body::with_pos(v(1, 150)));
    bodies.push(Body::with_pos(v(-10, 120)));
    bodies.push(Body::with_pos(v(-10, -20)));
    runner.resize(&mut qt, &mut bodies);
    runner.create_tree(&mut qt, &bodies);
    assert_eq!(qt.boundaries.tl.x, s(-20));
    assert_eq!(qt.boundaries.tl.y, s(-20));
    assert_eq!(qt.boundaries.br.x, s(150));
    assert_eq!(qt.boundaries.br.y, s(150));
    for st in qt.subtrees {
        println!("{:?}", st.boundaries);
    }
}

#[test]
fn resize_with_no_bodies_keeps_the_boundary() {
    let rec: Rectangle = Rectangle::new(v(0, 0), v(100, 100));
    let mut qt: Quadtree = Quadtree::new(rec, 1);
    let mut bodies: Vec<Body> = Vec::new();
    let mut runner: BarnesHutRunner = BarnesHutRunner::new();
    runner.resize(&mut qt, &mut bodies);
    assert_eq!(qt.boundaries, Rectangle::new(v(0, 0), v(100, 100)));
}

#[test]
fn zero_theta_traversal_equals_pairwise_sum() {
    // Three bodies; with the opening angle at zero the tree walk must add
    // exactly the same contributions as the direct pairwise pass.
    let mut runner = BarnesHutRunner::from_theta(Scalar::from_raw(0));
    let specs = [(10i64, 10i64, 2i64), (40, 12, 3), (33, 50, 5)];
    let mut bodies: Vec<Body> = Vec::new();
    for (k, &(x, y, m)) in specs.iter().enumerate() {
        let mut b = Body::with_mass_and_pos(s(m), v(x, y));
        b.id = k;
        bodies.push(b);
    }
    let mut qt = Quadtree::new(Rectangle::new(v(0, 0), v(64, 64)), 1);
    runner.create_tree(&mut qt, &bodies);

    for k in 0..bodies.len() {
        let mut walked = bodies[k];
        runner.barnes_hut_force(&mut qt, &mut walked);

        let mut direct = bodies[k];
        for j in 0..bodies.len() {
            if j != k {
                gravity::calculate_force_mass_center(
                    &mut direct,
                    bodies[j].pos,
                    bodies[j].mass,
                );
            }
        }
        assert_eq!(walked.force, direct.force);
        assert_ne!(walked.force.x.raw, 0);
    }
}

#[test]
fn paused_runner_does_not_step() {
    let mut runner = BarnesHutRunner::new();
    runner.toggle_pause();
    assert!(runner.paused);
    let mut qt = Quadtree::new(Rectangle::new(v(0, 0), v(64, 64)), 1);
    let mut bodies = vec![Body::with_pos(v(10, 10)), Body::with_pos(v(20, 20))];
    let before = bodies.clone();
    runner.iterate(&mut qt, &mut bodies);
    assert_eq!(bodies, before);
    runner.toggle_pause();
    assert!(!runner.paused);
    runner.iterate(&mut qt, &mut bodies);
    assert_ne!(bodies, before);
}

#[test]
fn symmetric_pair_conserves_momentum() {
    // Two bodies of equal mass a distance apart on the x axis, at rest,
    // with the angle forcing exact computation: after one step the pair's
    // center of mass has not moved and the velocities are exact opposites.
    let mut runner = BarnesHutRunner::from_theta(Scalar::from_raw(0));
    let mut qt = Quadtree::new(Rectangle::new(v(-16, -16), v(16, 16)), 1);
    let m = s(10);
    let mut bodies = vec![
        Body::with_mass_and_pos(m, v(-5, 0)),
        Body::with_mass_and_pos(m, v(5, 0)),
    ];
    runner.force_iterate(&mut qt, &mut bodies);
    // zero initial velocity: the symplectic step leaves positions in place
    assert_eq!(bodies[0].pos, v(-5, 0));
    assert_eq!(bodies[1].pos, v(5, 0));
    // the velocities are exactly opposite and point toward each other
    assert_eq!(bodies[0].velocity.x.raw, -bodies[1].velocity.x.raw);
    assert!(bodies[0].velocity.x.raw > 0);
    assert_eq!(bodies[0].velocity.y.raw, 0);
    assert_eq!(bodies[1].velocity.y.raw, 0);
    // accumulators are cleared by the integrator
    assert_eq!(bodies[0].force, Vec2::new(Scalar::from_raw(0), Scalar::from_raw(0)));
}

#[test]
fn step_is_reproducible() {
    let mut runner = BarnesHutRunner::from_theta(Scalar::from_raw(500_000));
    let mut qt = Quadtree::new(Rectangle::new(v(0, 0), v(64, 64)), 1);
    let mut bodies = vec![
        Body::with_mass_and_pos(s(2), v(10, 10)),
        Body::with_mass_and_pos(s(3), v(40, 12)),
        Body::with_mass_and_pos(s(5), v(33, 50)),
    ];
    let mut qt2 = Quadtree::new(Rectangle::new(v(0, 0), v(64, 64)), 1);
    let mut bodies2 = bodies.clone();
    runner.force_iterate(&mut qt, &mut bodies);
    let mut runner2 = BarnesHutRunner::from_theta(Scalar::from_raw(500_000));
    runner2.force_iterate(&mut qt2, &mut bodies2);
    assert_eq!(qt, qt2);
    assert_eq!(bodies, bodies2);
}
