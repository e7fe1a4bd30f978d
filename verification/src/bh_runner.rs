//! The Barnes-Hut driver: the opening-angle force traversal over the
//! spatial partition, and the per-step pipeline that rebuilds the tree and
//! advances every body.
use vstd::prelude::*;

use crate::body::Body;
use crate::fixed::{iabs, sat64, Scalar, SCALE};
use crate::gravity;
use crate::gravity::{
    integrate_model, pair_force, satadd_u, satmul_u, vec2_add, DT_RAW, U128_CAP,
};
use crate::quadtree::{
    fresh_model, insert_all, lemma_insert_props, lemma_models_of, models_of, update_mass_model,
    QtModel, Quadtree, Rectangle, width_int,
};
use crate::vec2::Vec2;

verus! {

/// The unsoftened squared distance between two positions, on the
/// raw-squared scale.
pub open spec fn pdist2(pa: Vec2, pb: Vec2) -> int {
    let dx = iabs(pa.x.v() - pb.x.v());
    let dy = iabs(pa.y.v() - pb.y.v());
    satadd_u(dx * dx, dy * dy)
}

/// The opening criterion: a node of extent `s` at squared distance `d2` is
/// opened (recursed into) when `s / dist > theta`, compared exactly as
/// `s^2 * SCALE^2 > theta^2 * d2` over saturating 128-bit terms.
pub open spec fn opens(s: int, theta: int, d2: int) -> bool {
    if s <= 0 {
        false
    } else if theta <= 0 {
        true
    } else {
        satmul_u(s * s, (SCALE as int) * (SCALE as int)) > satmul_u(theta * theta, d2)
    }
}

/// The pairwise pass over a leaf's bodies: every body except the one being
/// evaluated (excluded by identity, never by position) adds its softened
/// force contribution to the accumulator.
pub open spec fn pairwise_fold(
    bodies: Seq<Body>,
    pos: Vec2,
    mass: Scalar,
    id: usize,
    f0: Vec2,
) -> Vec2
    decreases bodies.len(),
{
    if bodies.len() == 0 {
        f0
    } else {
        let f1 = if bodies[0].id == id {
            f0
        } else {
            vec2_add(f0, pair_force(pos, mass, bodies[0].pos, bodies[0].mass))
        };
        pairwise_fold(bodies.drop_first(), pos, mass, id, f1)
    }
}

/// What the force traversal adds to a body's accumulator.  A leaf
/// contributes pairwise; an empty internal node contributes nothing; an
/// internal node that the criterion opens is recursed into child by child;
/// otherwise its whole subtree acts as one point mass at its center of
/// mass.
pub open spec fn force_model(t: QtModel, pos: Vec2, mass: Scalar, id: usize, theta: Scalar, f0: Vec2) -> Vec2
    decreases t,
{
    if t.subtrees.len() == 0 {
        pairwise_fold(t.bodies, pos, mass, id, f0)
    } else {
        match t.center_of_mass {
            None => f0,
            Some(com) => {
                let s = sat64(width_int(t.boundaries));
                if opens(s, theta.v(), pdist2(pos, com)) {
                    force_kids(t.subtrees, pos, mass, id, theta, f0)
                } else {
                    vec2_add(f0, pair_force(pos, mass, com, t.total_mass))
                }
            },
        }
    }
}

/// The traversal over a node's children, in quadrant order.
pub open spec fn force_kids(
    kids: Seq<QtModel>,
    pos: Vec2,
    mass: Scalar,
    id: usize,
    theta: Scalar,
    f0: Vec2,
) -> Vec2
    decreases kids,
{
    if kids.len() == 0 {
        f0
    } else {
        force_kids(
            kids.drop_first(),
            pos,
            mass,
            id,
            theta,
            force_model(kids[0], pos, mass, id, theta, f0),
        )
    }
}

/// The running minimum of a boundary fold over body coordinates.
pub open spec fn fold_min(s: Seq<Body>, acc: int) -> int
    decreases s.len(),
{
    if s.len() == 0 {
        acc
    } else {
        let a1 = if s[0].pos.x.v() < acc {
            s[0].pos.x.v()
        } else {
            acc
        };
        let a2 = if s[0].pos.y.v() < a1 {
            s[0].pos.y.v()
        } else {
            a1
        };
        fold_min(s.drop_first(), a2)
    }
}

/// The running maximum of a boundary fold over body coordinates.
pub open spec fn fold_max(s: Seq<Body>, acc: int) -> int
    decreases s.len(),
{
    if s.len() == 0 {
        acc
    } else {
        let a1 = if s[0].pos.x.v() > acc {
            s[0].pos.x.v()
        } else {
            acc
        };
        let a2 = if s[0].pos.y.v() > a1 {
            s[0].pos.y.v()
        } else {
            a1
        };
        fold_max(s.drop_first(), a2)
    }
}

/// The square boundary `resize` produces: one running minimum and maximum
/// across both axes of every body, seeded with the previous boundary's
/// horizontal extent.
pub open spec fn resize_model(t: QtModel, bodies: Seq<Body>) -> QtModel {
    let lo = fold_min(bodies, t.boundaries.tl.x.v());
    let hi = fold_max(bodies, t.boundaries.br.x.v());
    QtModel {
        boundaries: Rectangle {
            tl: Vec2 { x: Scalar { raw: lo as i64 }, y: Scalar { raw: lo as i64 } },
            br: Vec2 { x: Scalar { raw: hi as i64 }, y: Scalar { raw: hi as i64 } },
        },
        ..t
    }
}

/// The bodies re-numbered with their index in the driver's collection, so
/// that tree copies and live bodies agree on identity.
pub open spec fn with_ids(s: Seq<Body>) -> Seq<Body> {
    Seq::new(s.len(), |i: int| Body { id: i as usize, ..s[i] })
}

/// The tree one whole step rebuilds: cleared, its boundary refit around the
/// bodies, every body re-inserted under its index identity, and the masses
/// aggregated.
pub open spec fn rebuilt_model(t: QtModel, bodies: Seq<Body>) -> QtModel {
    update_mass_model(
        insert_all(
            resize_model(fresh_model(t.boundaries, t.limit), bodies),
            with_ids(bodies),
        ),
    )
}

/// One body advanced by one whole step against a rebuilt tree: traversal
/// into the accumulator, then one integration step.
pub open spec fn step_body(t: QtModel, theta: Scalar, b: Body, dt: Scalar) -> Body {
    integrate_model(
        Body { force: force_model(t, b.pos, b.mass, b.id, theta, b.force), ..b },
        dt,
    )
}

/// The opening criterion, evaluated exactly over saturating 128-bit terms.
fn opens_exec(s: Scalar, theta: Scalar, pa: Vec2, pb: Vec2) -> (r: bool)
    ensures
        r == opens(s.v(), theta.v(), pdist2(pa, pb)),
{
    if s.raw <= 0 {
        return false;
    }
    if theta.raw <= 0 {
        return true;
    }
    let su = s.raw as u128;
    let tu = theta.raw as u128;
    let dxm = gravity::diff_mag(pa.x.raw, pb.x.raw);
    let dym = gravity::diff_mag(pa.y.raw, pb.y.raw);
    proof {
        assert(su * su < 0xffff_ffff_ffff_ffff_ffff_ffff_ffff_ffffu128) by (nonlinear_arith)
            requires
                su < 0x8000_0000_0000_0000u128,
        ;
        assert(tu * tu < 0xffff_ffff_ffff_ffff_ffff_ffff_ffff_ffffu128) by (nonlinear_arith)
            requires
                tu < 0x8000_0000_0000_0000u128,
        ;
        assert(dxm * dxm <= 0xffff_ffff_ffff_ffff_ffff_ffff_ffff_ffffu128) by (nonlinear_arith)
            requires
                dxm < 0x1_0000_0000_0000_0000u128,
        ;
        assert(dym * dym <= 0xffff_ffff_ffff_ffff_ffff_ffff_ffff_ffffu128) by (nonlinear_arith)
            requires
                dym < 0x1_0000_0000_0000_0000u128,
        ;
    }
    let d2 = gravity::satadd_u128(dxm * dxm, dym * dym);
    let lhs = gravity::satmul_u128(su * su, 1_000_000_000_000u128);
    let rhs = gravity::satmul_u128(tu * tu, d2);
    lhs > rhs
}

/// Seeding folds keep the boundary fold within a symmetric bound and never
/// shrink past their seed.
pub proof fn lemma_fold_bounds(s: Seq<Body>, acc: int, bound: int)
    requires
        -bound <= acc <= bound,
        forall|i: int|
            0 <= i < s.len() ==> -bound <= (#[trigger] s[i]).pos.x.v() <= bound && -bound
                <= s[i].pos.y.v() <= bound,
    ensures
        fold_min(s, acc) <= acc,
        fold_max(s, acc) >= acc,
        -bound <= fold_min(s, acc),
        fold_max(s, acc) <= bound,
    decreases s.len(),
{
    if s.len() > 0 {
        let a1 = if s[0].pos.x.v() < acc {
            s[0].pos.x.v()
        } else {
            acc
        };
        let a2 = if s[0].pos.y.v() < a1 {
            s[0].pos.y.v()
        } else {
            a1
        };
        let b1 = if s[0].pos.x.v() > acc {
            s[0].pos.x.v()
        } else {
            acc
        };
        let b2 = if s[0].pos.y.v() > b1 {
            s[0].pos.y.v()
        } else {
            b1
        };
        assert(forall|i: int|
            0 <= i < s.drop_first().len() ==> -bound <= (#[trigger] s.drop_first()[i]).pos.x.v()
                <= bound && -bound <= s.drop_first()[i].pos.y.v() <= bound);
        lemma_fold_bounds(s.drop_first(), a2, bound);
        lemma_fold_bounds(s.drop_first(), b2, bound);
    }
}

/// The pairwise pass distributes over concatenation.
pub proof fn lemma_pairwise_concat(
    a: Seq<Body>,
    b: Seq<Body>,
    pos: Vec2,
    mass: Scalar,
    id: usize,
    f0: Vec2,
)
    ensures
        pairwise_fold(a + b, pos, mass, id, f0) == pairwise_fold(
            b,
            pos,
            mass,
            id,
            pairwise_fold(a, pos, mass, id, f0),
        ),
    decreases a.len(),
{
    if a.len() == 0 {
        assert(a + b =~= b);
    } else {
        assert((a + b)[0] == a[0]);
        assert((a + b).drop_first() =~= a.drop_first() + b);
        let f1 = if a[0].id == id {
            f0
        } else {
            vec2_add(f0, pair_force(pos, mass, a[0].pos, a[0].mass))
        };
        lemma_pairwise_concat(a.drop_first(), b, pos, mass, id, f1);
    }
}

/// Approximation convergence, exact half: with the opening angle at zero
/// the criterion opens every nonempty node, so the traversal adds exactly
/// the pairwise contribution of every body in the subtree -- the O(n^2)
/// sum the approximation converges to.
pub proof fn lemma_theta_zero_exact(t: QtModel, pos: Vec2, mass: Scalar, id: usize, f0: Vec2)
    requires
        t.wf(),
        t.clean(),
        t.com_faithful(),
    ensures
        force_model(t, pos, mass, id, Scalar { raw: 0 }, f0) == pairwise_fold(
            t.body_seq(),
            pos,
            mass,
            id,
            f0,
        ),
    decreases t,
{
    let th = Scalar { raw: 0 };
    if t.subtrees.len() == 0 {
    } else {
        match t.center_of_mass {
            None => {
                assert(t.body_seq() =~= Seq::<Body>::empty());
            },
            Some(com) => {
                let s = sat64(width_int(t.boundaries));
                assert(s > 0);
                assert(opens(s, 0, pdist2(pos, com)));
                let k = t.subtrees;
                let bs0 = k[0].body_seq();
                let bs1 = k[1].body_seq();
                let bs2 = k[2].body_seq();
                let bs3 = k[3].body_seq();
                let f1 = force_model(k[0], pos, mass, id, th, f0);
                let f2 = force_model(k[1], pos, mass, id, th, f1);
                let f3 = force_model(k[2], pos, mass, id, th, f2);
                let f4 = force_model(k[3], pos, mass, id, th, f3);
                lemma_theta_zero_exact(k[0], pos, mass, id, f0);
                lemma_theta_zero_exact(k[1], pos, mass, id, f1);
                lemma_theta_zero_exact(k[2], pos, mass, id, f2);
                lemma_theta_zero_exact(k[3], pos, mass, id, f3);
                let k1 = k.drop_first();
                let k2 = k1.drop_first();
                let k3 = k2.drop_first();
                let k4 = k3.drop_first();
                assert(k1[0] == k[1] && k2[0] == k[2] && k3[0] == k[3]);
                assert(k4.len() == 0);
                assert(force_kids(k, pos, mass, id, th, f0) == force_kids(
                    k1,
                    pos,
                    mass,
                    id,
                    th,
                    f1,
                ));
                assert(force_kids(k1, pos, mass, id, th, f1) == force_kids(
                    k2,
                    pos,
                    mass,
                    id,
                    th,
                    f2,
                ));
                assert(force_kids(k2, pos, mass, id, th, f2) == force_kids(
                    k3,
                    pos,
                    mass,
                    id,
                    th,
                    f3,
                ));
                assert(force_kids(k3, pos, mass, id, th, f3) == force_kids(
                    k4,
                    pos,
                    mass,
                    id,
                    th,
                    f4,
                ));
                assert(force_kids(k4, pos, mass, id, th, f4) == f4);
                assert(force_kids(k, pos, mass, id, th, f0) == f4);
                lemma_pairwise_concat(bs0, bs1, pos, mass, id, f0);
                lemma_pairwise_concat(bs0 + bs1, bs2, pos, mass, id, f0);
                lemma_pairwise_concat(bs0 + bs1 + bs2, bs3, pos, mass, id, f0);
                lemma_pairwise_concat(bs0 + bs1 + bs2 + bs3, t.bodies, pos, mass, id, f0);
                assert(t.bodies.len() == 0);
                assert(pairwise_fold(t.body_seq(), pos, mass, id, f0) == f4);
            },
        }
    }
}

/// Approximation convergence, monotone half: raising the opening angle
/// never opens a node that a smaller angle left closed, so a larger angle
/// never deepens the traversal.
pub proof fn lemma_opens_monotone(s: int, theta1: int, theta2: int, d2: int)
    requires
        0 <= theta1 <= theta2,
        d2 >= 0,
    ensures
        opens(s, theta2, d2) ==> opens(s, theta1, d2),
{
    if opens(s, theta2, d2) && theta1 > 0 {
        assert(theta1 * theta1 * d2 <= theta2 * theta2 * d2) by (nonlinear_arith)
            requires
                0 < theta1 <= theta2,
                d2 >= 0,
        ;
        assert(theta1 * theta1 <= theta2 * theta2) by (nonlinear_arith)
            requires
                0 < theta1 <= theta2,
        ;
        assert(satmul_u(theta1 * theta1, d2) <= satmul_u(theta2 * theta2, d2)) by (nonlinear_arith)
            requires
                0 <= theta1 * theta1 <= theta2 * theta2,
                d2 >= 0,
                satmul_u(theta1 * theta1, d2) == (if theta1 * theta1 * d2 > U128_CAP as int {
                    U128_CAP as int
                } else {
                    theta1 * theta1 * d2
                }),
                satmul_u(theta2 * theta2, d2) == (if theta2 * theta2 * d2 > U128_CAP as int {
                    U128_CAP as int
                } else {
                    theta2 * theta2 * d2
                }),
        ;
    }
}

/// The simulation driver: the opening angle and the pause flag.
pub struct BarnesHutRunner {
    pub theta: Scalar,
    pub paused: bool,
}

impl BarnesHutRunner {
    /// A running driver with the default opening angle 0.5.
    pub fn new() -> (r: BarnesHutRunner)
        ensures
            r.theta.v() == 500_000,
            !r.paused,
    {
        BarnesHutRunner { theta: Scalar { raw: 500_000 }, paused: false }
    }

    /// A running driver with the given opening angle.
    pub fn from_theta(theta: Scalar) -> (r: BarnesHutRunner)
        ensures
            r.theta == theta,
            !r.paused,
    {
        BarnesHutRunner { theta, paused: false }
    }

    /// Accumulate the Barnes-Hut force on one body by walking the
    /// partition: pairwise at leaves with self-exclusion by identity;
    /// opened internal nodes are recursed into; far internal nodes act as
    /// one point mass at their center of mass.
    pub fn barnes_hut_force(&mut self, quadtree: &mut Quadtree, body: &mut Body)
        ensures
            final(self).theta == old(self).theta,
            final(self).paused == old(self).paused,
            final(quadtree)@ == old(quadtree)@,
            *final(body) == (Body {
                force: force_model(
                    old(quadtree)@,
                    old(body).pos,
                    old(body).mass,
                    old(body).id,
                    old(self).theta,
                    old(body).force,
                ),
                ..*old(body)
            }),
        decreases *old(quadtree),
    {
        proof {
            lemma_models_of(quadtree.subtrees@);
        }
        if quadtree.subtrees.len() == 0 {
            let n = quadtree.bodies.len();
            let mut i: usize = 0;
            proof {
                assert(quadtree.bodies@.skip(0) =~= quadtree.bodies@);
            }
            while i < n
                invariant
                    i <= n,
                    n == quadtree.bodies.len(),
                    quadtree@ == old(quadtree)@,
                    body.pos == old(body).pos,
                    body.mass == old(body).mass,
                    body.id == old(body).id,
                    body.velocity == old(body).velocity,
                    body.acceleration == old(body).acceleration,
                    pairwise_fold(
                        quadtree.bodies@.skip(i as int),
                        body.pos,
                        body.mass,
                        body.id,
                        body.force,
                    ) == pairwise_fold(
                        old(quadtree)@.bodies,
                        old(body).pos,
                        old(body).mass,
                        old(body).id,
                        old(body).force,
                    ),
                decreases n - i,
            {
                let ghost rest = quadtree.bodies@.skip(i as int);
                let other = quadtree.bodies[i];
                proof {
                    assert(rest[0] == other);
                    assert(rest.drop_first() =~= quadtree.bodies@.skip(i as int + 1));
                }
                if other.id != body.id {
                    gravity::calculate_force_mass_center(body, other.pos, other.mass);
                }
                i += 1;
            }
            proof {
                assert(quadtree.bodies@.skip(n as int) =~= Seq::<Body>::empty());
            }
        } else {
            match quadtree.center_of_mass {
                Some(com) => {
                    let s = quadtree.boundaries.width();
                    if opens_exec(s, self.theta, body.pos, com) {
                        let n = quadtree.subtrees.len();
                        let mut i: usize = 0;
                        proof {
                            assert(models_of(quadtree.subtrees@).skip(0) =~= models_of(
                                quadtree.subtrees@,
                            ));
                        }
                        while i < n
                            invariant
                                i <= n,
                                n == quadtree.subtrees.len(),
                                quadtree@ == old(quadtree)@,
                                forall|j: int|
                                    i <= j < n ==> quadtree.subtrees@[j] == old(
                                        quadtree,
                                    ).subtrees@[j],
                                self.theta == old(self).theta,
                                self.paused == old(self).paused,
                                body.pos == old(body).pos,
                                body.mass == old(body).mass,
                                body.id == old(body).id,
                                body.velocity == old(body).velocity,
                                body.acceleration == old(body).acceleration,
                                force_kids(
                                    models_of(quadtree.subtrees@).skip(i as int),
                                    body.pos,
                                    body.mass,
                                    body.id,
                                    old(self).theta,
                                    body.force,
                                ) == force_kids(
                                    old(quadtree)@.subtrees,
                                    old(body).pos,
                                    old(body).mass,
                                    old(body).id,
                                    old(self).theta,
                                    old(body).force,
                                ),
                            decreases n - i,
                        {
                            let ghost pre_kids = quadtree.subtrees@;
                            let ghost rest = models_of(pre_kids).skip(i as int);
                            proof {
                                broadcast use vstd::std_specs::vec::axiom_vec_index_decreases;

                                lemma_models_of(pre_kids);
                                lemma_models_of(old(quadtree).subtrees@);
                                assert(old(quadtree).subtrees@.len() == n);
                                assert(rest[0] == pre_kids[i as int]@);
                                assert(quadtree.subtrees@[i as int] == old(
                                    quadtree,
                                ).subtrees@[i as int]);
                                assert(decreases_to!(*old(quadtree) => old(quadtree).subtrees));
                                assert(decreases_to!(old(quadtree).subtrees => old(quadtree).subtrees[i as int]));
                            }
                            self.barnes_hut_force(&mut quadtree.subtrees[i], body);
                            proof {
                                crate::quadtree::lemma_models_of_update(
                                    pre_kids,
                                    i as int,
                                    quadtree.subtrees@[i as int],
                                );
                                assert(models_of(quadtree.subtrees@) =~= models_of(pre_kids));
                                assert(quadtree@ =~~= old(quadtree)@);
                                assert(models_of(quadtree.subtrees@).skip(i as int + 1)
                                    =~= rest.drop_first());
                            }
                            i += 1;
                        }
                    } else {
                        gravity::calculate_force_mass_center(body, com, quadtree.total_mass);
                    }
                },
                None => {},
            }
        }
    }

    /// Insert every body into the partition, then aggregate mass bottom-up.
    pub fn create_tree(&mut self, quadtree: &mut Quadtree, bodies: &Vec<Body>)
        requires
            old(quadtree)@.wf(),
            old(quadtree)@.pos_masses(),
            forall|i: int| 0 <= i < bodies@.len() ==> (#[trigger] bodies@[i]).mass.v() > 0,
        ensures
            final(self).theta == old(self).theta,
            final(self).paused == old(self).paused,
            final(quadtree)@ == update_mass_model(insert_all(old(quadtree)@, bodies@)),
    {
        let n = bodies.len();
        let mut i: usize = 0;
        proof {
            assert(bodies@.skip(0) =~= bodies@);
        }
        while i < n
            invariant
                i <= n,
                n == bodies.len(),
                quadtree@.wf(),
                quadtree@.pos_masses(),
                forall|j: int| 0 <= j < bodies@.len() ==> (#[trigger] bodies@[j]).mass.v() > 0,
                insert_all(quadtree@, bodies@.skip(i as int)) == insert_all(
                    old(quadtree)@,
                    bodies@,
                ),
            decreases n - i,
        {
            let ghost pre = quadtree@;
            let b = bodies[i];
            proof {
                lemma_insert_props(pre, b);
                assert(bodies@.skip(i as int)[0] == b);
                assert(bodies@.skip(i as int).drop_first() =~= bodies@.skip(i as int + 1));
            }
            quadtree.insert(b);
            i += 1;
        }
        proof {
            assert(bodies@.skip(n as int) =~= Seq::<Body>::empty());
        }
        quadtree.update_mass();
    }

    /// Recompute the root boundary as one square from a single running
    /// minimum and maximum across both axes of every body, seeded with the
    /// previous boundary's horizontal extent.
    pub fn resize(&mut self, quadtree: &mut Quadtree, bodies: &mut Vec<Body>)
        ensures
            final(self).theta == old(self).theta,
            final(self).paused == old(self).paused,
            final(bodies)@ == old(bodies)@,
            final(quadtree)@ == resize_model(old(quadtree)@, old(bodies)@),
    {
        let mut smallest: Scalar = quadtree.boundaries.tl.x;
        let mut largest: Scalar = quadtree.boundaries.br.x;
        let n = bodies.len();
        let mut i: usize = 0;
        proof {
            assert(bodies@.skip(0) =~= bodies@);
        }
        while i < n
            invariant
                i <= n,
                n == bodies.len(),
                bodies@ == old(bodies)@,
                quadtree@ == old(quadtree)@,
                fold_min(bodies@.skip(i as int), smallest.v()) == fold_min(
                    old(bodies)@,
                    old(quadtree)@.boundaries.tl.x.v(),
                ),
                fold_max(bodies@.skip(i as int), largest.v()) == fold_max(
                    old(bodies)@,
                    old(quadtree)@.boundaries.br.x.v(),
                ),
            decreases n - i,
        {
            let ghost rest = bodies@.skip(i as int);
            let b = bodies[i];
            proof {
                assert(rest[0] == b);
                assert(rest.drop_first() =~= bodies@.skip(i as int + 1));
            }
            if b.pos.x.raw > largest.raw {
                largest = b.pos.x;
            }
            if b.pos.x.raw < smallest.raw {
                smallest = b.pos.x;
            }
            if b.pos.y.raw > largest.raw {
                largest = b.pos.y;
            }
            if b.pos.y.raw < smallest.raw {
                smallest = b.pos.y;
            }
            i += 1;
        }
        proof {
            assert(bodies@.skip(n as int) =~= Seq::<Body>::empty());
        }
        quadtree.boundaries = Rectangle {
            tl: Vec2 { x: smallest, y: smallest },
            br: Vec2 { x: largest, y: largest },
        };
        proof {
            assert(quadtree@ =~~= resize_model(old(quadtree)@, old(bodies)@));
        }
    }

    /// One force pass over every body against the (already rebuilt) tree,
    /// then one integration pass: two full passes, so no body's force
    /// computation observes another body's already-updated position.
    pub fn update(&mut self, quadtree: &mut Quadtree, bodies: &mut Vec<Body>)
        requires
            forall|i: int|
                0 <= i < old(bodies)@.len() ==> (#[trigger] old(bodies)@[i]).mass.v() > 0,
        ensures
            final(self).theta == old(self).theta,
            final(self).paused == old(self).paused,
            final(quadtree)@ == old(quadtree)@,
            final(bodies)@.len() == old(bodies)@.len(),
            forall|i: int|
                0 <= i < old(bodies)@.len() ==> final(bodies)@[i] == step_body(
                    old(quadtree)@,
                    old(self).theta,
                    (#[trigger] old(bodies)@[i]),
                    Scalar { raw: DT_RAW },
                ),
    {
        let n = bodies.len();
        let mut i: usize = 0;
        while i < n
            invariant
                i <= n,
                n == bodies@.len(),
                n == old(bodies)@.len(),
                quadtree@ == old(quadtree)@,
                self.theta == old(self).theta,
                self.paused == old(self).paused,
                forall|j: int|
                    0 <= j < old(bodies)@.len() ==> (#[trigger] old(bodies)@[j]).mass.v() > 0,
                forall|j: int| i <= j < n ==> bodies@[j] == old(bodies)@[j],
                forall|j: int|
                    0 <= j < i ==> bodies@[j] == (Body {
                        force: force_model(
                            old(quadtree)@,
                            old(bodies)@[j].pos,
                            old(bodies)@[j].mass,
                            old(bodies)@[j].id,
                            old(self).theta,
                            (#[trigger] old(bodies)@[j]).force,
                        ),
                        ..old(bodies)@[j]
                    }),
            decreases n - i,
        {
            let mut b = bodies[i];
            self.barnes_hut_force(quadtree, &mut b);
            bodies[i] = b;
            i += 1;
        }
        let mut k: usize = 0;
        let ghost forced = bodies@;
        while k < n
            invariant
                k <= n,
                n == bodies@.len(),
                n == old(bodies)@.len(),
                forced.len() == n,
                self.theta == old(self).theta,
                self.paused == old(self).paused,
                quadtree@ == old(quadtree)@,
                forall|j: int|
                    0 <= j < old(bodies)@.len() ==> (#[trigger] old(bodies)@[j]).mass.v() > 0,
                forall|j: int|
                    0 <= j < n ==> forced[j] == (Body {
                        force: force_model(
                            old(quadtree)@,
                            old(bodies)@[j].pos,
                            old(bodies)@[j].mass,
                            old(bodies)@[j].id,
                            old(self).theta,
                            (#[trigger] old(bodies)@[j]).force,
                        ),
                        ..old(bodies)@[j]
                    }),
                forall|j: int| k <= j < n ==> bodies@[j] == forced[j],
                forall|j: int|
                    0 <= j < k ==> bodies@[j] == step_body(
                        old(quadtree)@,
                        old(self).theta,
                        (#[trigger] old(bodies)@[j]),
                        Scalar { raw: DT_RAW },
                    ),
            decreases n - k,
        {
            let mut b = bodies[k];
            proof {
                assert(old(bodies)@[k as int].mass.v() > 0);
                assert(forced[k as int].mass == old(bodies)@[k as int].mass);
            }
            gravity::apply_force(&mut b, Scalar { raw: DT_RAW });
            bodies[k] = b;
            k += 1;
        }
    }

    /// One discrete step, unless paused: rebuild the partition from the
    /// live bodies, then run the force traversal and the integrator over
    /// every body.
    pub fn iterate(&mut self, quadtree: &mut Quadtree, bodies: &mut Vec<Body>)
        requires
            !old(self).paused ==> {
                &&& -0x2000_0000_0000_0000 <= old(quadtree)@.boundaries.tl.x.v()
                &&& old(quadtree)@.boundaries.br.x.v() <= 0x2000_0000_0000_0000
                &&& old(quadtree)@.boundaries.tl.x.v() < old(quadtree)@.boundaries.br.x.v()
                &&& forall|i: int|
                    0 <= i < old(bodies)@.len() ==> {
                        &&& -0x2000_0000_0000_0000 <= (#[trigger] old(
                            bodies,
                        )@[i]).pos.x.v() <= 0x2000_0000_0000_0000
                        &&& -0x2000_0000_0000_0000 <= old(bodies)@[i].pos.y.v()
                            <= 0x2000_0000_0000_0000
                        &&& old(bodies)@[i].mass.v() > 0
                    }
            },
        ensures
            final(self).theta == old(self).theta,
            final(self).paused == old(self).paused,
            old(self).paused ==> final(quadtree)@ == old(quadtree)@ && final(bodies)@ == old(
                bodies,
            )@,
            !old(self).paused ==> {
                &&& final(quadtree)@ == rebuilt_model(old(quadtree)@, old(bodies)@)
                &&& final(bodies)@.len() == old(bodies)@.len()
                &&& forall|i: int|
                    0 <= i < old(bodies)@.len() ==> final(bodies)@[i] == step_body(
                        rebuilt_model(old(quadtree)@, old(bodies)@),
                        old(self).theta,
                        #[trigger] with_ids(old(bodies)@)[i],
                        Scalar { raw: DT_RAW },
                    )
            },
    {
        if self.paused {
            return ;
        }
        self.force_iterate(quadtree, bodies);
    }

    /// One unconditional step: clear the partition, refit its boundary,
    /// re-insert every body under its index identity, aggregate mass, then
    /// run the force traversal and the integrator over every body.
    pub fn force_iterate(&mut self, quadtree: &mut Quadtree, bodies: &mut Vec<Body>)
        requires
            -0x2000_0000_0000_0000 <= old(quadtree)@.boundaries.tl.x.v(),
            old(quadtree)@.boundaries.br.x.v() <= 0x2000_0000_0000_0000,
            old(quadtree)@.boundaries.tl.x.v() < old(quadtree)@.boundaries.br.x.v(),
            forall|i: int|
                0 <= i < old(bodies)@.len() ==> {
                    &&& -0x2000_0000_0000_0000 <= (#[trigger] old(
                        bodies,
                    )@[i]).pos.x.v() <= 0x2000_0000_0000_0000
                    &&& -0x2000_0000_0000_0000 <= old(bodies)@[i].pos.y.v()
                        <= 0x2000_0000_0000_0000
                    &&& old(bodies)@[i].mass.v() > 0
                },
        ensures
            final(self).theta == old(self).theta,
            final(self).paused == old(self).paused,
            final(quadtree)@ == rebuilt_model(old(quadtree)@, old(bodies)@),
            final(bodies)@.len() == old(bodies)@.len(),
            forall|i: int|
                0 <= i < old(bodies)@.len() ==> final(bodies)@[i] == step_body(
                    rebuilt_model(old(quadtree)@, old(bodies)@),
                    old(self).theta,
                    #[trigger] with_ids(old(bodies)@)[i],
                    Scalar { raw: DT_RAW },
                ),
    {
        quadtree.clear();
        self.resize(quadtree, bodies);
        let ghost resized = resize_model(
            fresh_model(old(quadtree)@.boundaries, old(quadtree)@.limit),
            old(bodies)@,
        );
        let n = bodies.len();
        let mut i: usize = 0;
        while i < n
            invariant
                i <= n,
                n == bodies@.len(),
                n == old(bodies)@.len(),
                quadtree@ == resized,
                self.theta == old(self).theta,
                self.paused == old(self).paused,
                forall|j: int| i <= j < n ==> bodies@[j] == old(bodies)@[j],
                forall|j: int| 0 <= j < i ==> bodies@[j] == with_ids(old(bodies)@)[j],
            decreases n - i,
        {
            let mut b = bodies[i];
            b.id = i;
            bodies[i] = b;
            i += 1;
        }
        proof {
            assert(bodies@ =~= with_ids(old(bodies)@));
            let lo = fold_min(old(bodies)@, old(quadtree)@.boundaries.tl.x.v());
            let hi = fold_max(old(bodies)@, old(quadtree)@.boundaries.br.x.v());
            lemma_fold_bounds(
                old(bodies)@,
                old(quadtree)@.boundaries.tl.x.v(),
                0x2000_0000_0000_0000,
            );
            lemma_fold_bounds(
                old(bodies)@,
                old(quadtree)@.boundaries.br.x.v(),
                0x2000_0000_0000_0000,
            );
            assert(lo <= old(quadtree)@.boundaries.tl.x.v());
            assert(hi >= old(quadtree)@.boundaries.br.x.v());
            assert(resized.boundaries.valid());
            assert(resized.wf());
            assert(resized.pos_masses());
            assert(forall|j: int|
                0 <= j < bodies@.len() ==> (#[trigger] bodies@[j]).mass.v() > 0);
        }
        self.create_tree(quadtree, bodies);
        self.update(quadtree, bodies);
    }

    /// Flip between Running and Paused.
    pub fn toggle_pause(&mut self)
        ensures
            final(self).paused == !old(self).paused,
            final(self).theta == old(self).theta,
    {
        self.paused = !self.paused;
    }
}

} // verus!
