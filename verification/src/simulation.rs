//! The naive simulation driver: every pair of bodies interacts directly,
//! then every body takes one integration step.  This is the exact O(n^2)
//! reference the Barnes-Hut traversal approximates.
use vstd::prelude::*;

use crate::body::Body;
use crate::fixed::{sat64, Scalar, SCALE};
use crate::gravity;
use crate::gravity::{integrate_model, pair_force, vec2_add, vec2_sub, DT_RAW};
use crate::vec2::Vec2;

verus! {

/// One pairwise interaction applied inside a body collection: attraction on
/// the body at `i`, the exact opposite contribution on the body at `j`.
pub open spec fn apply_pair(s: Seq<Body>, i: int, j: int) -> Seq<Body> {
    let f = pair_force(s[i].pos, s[i].mass, s[j].pos, s[j].mass);
    s.update(i, Body { force: vec2_add(s[i].force, f), ..s[i] }).update(
        j,
        Body { force: vec2_sub(s[j].force, f), ..s[j] },
    )
}

/// The inner pass: the body at `i` against every later body from `j` on.
pub open spec fn pair_pass_inner(s: Seq<Body>, i: int, j: int) -> Seq<Body>
    decreases s.len() - j,
    via pair_pass_inner_dec
{
    if i < 0 || j < i + 1 || j >= s.len() {
        s
    } else {
        pair_pass_inner(apply_pair(s, i, j), i, j + 1)
    }
}

#[via_fn]
proof fn pair_pass_inner_dec(s: Seq<Body>, i: int, j: int) {
    if !(i < 0 || j < i + 1 || j >= s.len()) {
        assert(apply_pair(s, i, j).len() == s.len());
    }
}

/// The full pass: every unordered pair interacts exactly once.
pub open spec fn pair_pass(s: Seq<Body>, i: int) -> Seq<Body>
    decreases s.len() - i,
    via pair_pass_dec
{
    if i < 0 || i >= s.len() {
        s
    } else {
        pair_pass(pair_pass_inner(s, i, i + 1), i + 1)
    }
}

#[via_fn]
proof fn pair_pass_dec(s: Seq<Body>, i: int) {
    if 0 <= i < s.len() {
        lemma_pair_pass_inner_frame(s, i, i + 1);
    }
}

/// `apply_pair` changes only force accumulators.
pub proof fn lemma_apply_pair_frame(s: Seq<Body>, i: int, j: int)
    requires
        0 <= i < s.len(),
        0 <= j < s.len(),
    ensures
        apply_pair(s, i, j).len() == s.len(),
        forall|k: int|
            0 <= k < s.len() ==> {
                &&& (#[trigger] apply_pair(s, i, j)[k]).pos == s[k].pos
                &&& apply_pair(s, i, j)[k].mass == s[k].mass
                &&& apply_pair(s, i, j)[k].velocity == s[k].velocity
                &&& apply_pair(s, i, j)[k].id == s[k].id
            },
{
}

/// The inner pass changes only force accumulators.
pub proof fn lemma_pair_pass_inner_frame(s: Seq<Body>, i: int, j: int)
    requires
        0 <= i < s.len(),
    ensures
        pair_pass_inner(s, i, j).len() == s.len(),
        forall|k: int|
            0 <= k < s.len() ==> {
                &&& (#[trigger] pair_pass_inner(s, i, j)[k]).pos == s[k].pos
                &&& pair_pass_inner(s, i, j)[k].mass == s[k].mass
                &&& pair_pass_inner(s, i, j)[k].velocity == s[k].velocity
                &&& pair_pass_inner(s, i, j)[k].id == s[k].id
            },
    decreases s.len() - j,
{
    if i + 1 <= j < s.len() {
        lemma_apply_pair_frame(s, i, j);
        lemma_pair_pass_inner_frame(apply_pair(s, i, j), i, j + 1);
    }
}

/// The full pass changes only force accumulators.
pub proof fn lemma_pair_pass_frame(s: Seq<Body>, i: int)
    ensures
        pair_pass(s, i).len() == s.len(),
        forall|k: int|
            0 <= k < s.len() ==> {
                &&& (#[trigger] pair_pass(s, i)[k]).pos == s[k].pos
                &&& pair_pass(s, i)[k].mass == s[k].mass
                &&& pair_pass(s, i)[k].velocity == s[k].velocity
                &&& pair_pass(s, i)[k].id == s[k].id
            },
    decreases s.len() - i,
{
    if 0 <= i < s.len() {
        lemma_pair_pass_inner_frame(s, i, i + 1);
        lemma_pair_pass_frame(pair_pass_inner(s, i, i + 1), i + 1);
    }
}

/// The bodies laid out on an axis-aligned unit grid of the given side
/// length, each of unit mass.
pub open spec fn square_seq(length: u16, top_left: Scalar) -> Seq<Body> {
    Seq::new(
        (length as nat) * (length as nat),
        |k: int|
            Body {
                mass: Scalar { raw: SCALE },
                pos: Vec2 {
                    x: Scalar { raw: sat64((k / (length as int)) * SCALE + top_left.v()) as i64 },
                    y: Scalar { raw: sat64((k % (length as int)) * SCALE + top_left.v()) as i64 },
                },
                ..Body::default_spec()
            },
    )
}

/// The naive driver's state: the live body collection.
#[derive(Debug)]
pub struct Simulation {
    pub bodies: Vec<Body>,
}

impl Simulation {
    /// An empty simulation.
    pub fn new() -> (r: Simulation)
        ensures
            r.bodies@ =~= Seq::<Body>::empty(),
    {
        Simulation { bodies: Vec::new() }
    }

    /// Append a square grid of unit-mass bodies, one world unit apart, with
    /// its top-left corner at `(top_left, top_left)`.
    pub fn square(&mut self, length: u16, top_left: Scalar)
        ensures
            final(self).bodies@ == old(self).bodies@ + square_seq(length, top_left),
    {
        let n = length as i64;
        let mut x: u16 = 0;
        proof {
            assert(old(self).bodies@ + square_seq(length, top_left).take(0) =~= old(
                self,
            ).bodies@);
        }
        while x < length
            invariant
                x <= length,
                n == length as i64,
                self.bodies@ == old(self).bodies@ + square_seq(length, top_left).take(
                    (x as int) * (length as int),
                ),
            decreases length - x,
        {
            let mut y: u16 = 0;
            while y < length
                invariant
                    x < length,
                    y <= length,
                    n == length as i64,
                    self.bodies@ == old(self).bodies@ + square_seq(length, top_left).take(
                        (x as int) * (length as int) + (y as int),
                    ),
                decreases length - y,
            {
                let px = Scalar::from_int(x as i64).add(top_left);
                let py = Scalar::from_int(y as i64).add(top_left);
                self.bodies.push(
                    Body::with_mass_and_pos(Scalar { raw: SCALE }, Vec2 { x: px, y: py }),
                );
                proof {
                    let k = (x as int) * (length as int) + (y as int);
                    assert(0 <= k < (length as int) * (length as int)) by (nonlinear_arith)
                        requires
                            0 <= x < length as int,
                            0 <= y < length as int,
                            k == (x as int) * (length as int) + (y as int),
                    ;
                    assert(k / (length as int) == x as int && k % (length as int) == y as int)
                        by (nonlinear_arith)
                        requires
                            0 <= x,
                            0 <= y < length as int,
                            k == (x as int) * (length as int) + (y as int),
                    ;
                    assert(square_seq(length, top_left)[k] == (Body {
                        mass: Scalar { raw: SCALE },
                        pos: Vec2 {
                            x: Scalar { raw: sat64((x as int) * SCALE + top_left.v()) as i64 },
                            y: Scalar { raw: sat64((y as int) * SCALE + top_left.v()) as i64 },
                        },
                        ..Body::default_spec()
                    }));
                    assert(square_seq(length, top_left).take(k + 1) =~= square_seq(
                        length,
                        top_left,
                    ).take(k).push(square_seq(length, top_left)[k]));
                    assert(self.bodies@ == old(self).bodies@ + square_seq(length, top_left).take(
                        k + 1,
                    ));
                }
                y = y + 1;
            }
            x = x + 1;
            proof {
                assert((x as int) * (length as int) == (x as int - 1) * (length as int) + (
                length as int)) by (nonlinear_arith);
            }
        }
        proof {
            assert(square_seq(length, top_left).take((length as int) * (length as int))
                =~= square_seq(length, top_left));
        }
    }

    /// One naive step: every unordered pair of bodies interacts directly,
    /// then every body takes one integration step.
    pub fn update(&mut self)
        requires
            forall|i: int|
                0 <= i < old(self).bodies@.len() ==> (#[trigger] old(
                    self,
                ).bodies@[i]).mass.v() > 0,
        ensures
            final(self).bodies@.len() == old(self).bodies@.len(),
            forall|i: int|
                0 <= i < old(self).bodies@.len() ==> final(self).bodies@[i] == integrate_model(
                    #[trigger] pair_pass(old(self).bodies@, 0)[i],
                    Scalar { raw: DT_RAW },
                ),
    {
        let n = self.bodies.len();
        let mut i: usize = 0;
        proof {
            if n == 0 {
                assert(pair_pass(self.bodies@, 0) == self.bodies@);
            }
        }
        while i < n
            invariant
                i <= n,
                n == self.bodies@.len(),
                n == old(self).bodies@.len(),
                forall|k: int|
                    0 <= k < n ==> (#[trigger] self.bodies@[k]).mass == old(
                        self,
                    ).bodies@[k].mass,
                pair_pass(self.bodies@, i as int) == pair_pass(old(self).bodies@, 0),
            decreases n - i,
        {
            let mut j: usize = i + 1;
            while j < n
                invariant
                    i < n,
                    i + 1 <= j,
                    n == self.bodies@.len(),
                    n == old(self).bodies@.len(),
                    forall|k: int|
                        0 <= k < n ==> (#[trigger] self.bodies@[k]).mass == old(
                            self,
                        ).bodies@[k].mass,
                    pair_pass(
                        pair_pass_inner(self.bodies@, i as int, j as int),
                        i as int + 1,
                    ) == pair_pass(old(self).bodies@, 0),
                decreases n - j,
            {
                let ghost pre = self.bodies@;
                let mut a = self.bodies[i];
                let mut b = self.bodies[j];
                gravity::calculate_force_single(&mut a, &mut b);
                self.bodies[i] = a;
                self.bodies[j] = b;
                proof {
                    assert(self.bodies@ =~= apply_pair(pre, i as int, j as int));
                    lemma_apply_pair_frame(pre, i as int, j as int);
                }
                j = j + 1;
            }
            i = i + 1;
        }
        proof {
            lemma_pair_pass_frame(old(self).bodies@, 0);
        }
        let ghost forced = self.bodies@;
        let mut k: usize = 0;
        while k < n
            invariant
                k <= n,
                n == self.bodies@.len(),
                n == old(self).bodies@.len(),
                forced == pair_pass(old(self).bodies@, 0),
                forced.len() == n,
                forall|j: int|
                    0 <= j < n ==> (#[trigger] forced[j]).mass == old(self).bodies@[j].mass,
                forall|j: int|
                    0 <= j < old(self).bodies@.len() ==> (#[trigger] old(
                        self,
                    ).bodies@[j]).mass.v() > 0,
                forall|j: int| k <= j < n ==> self.bodies@[j] == forced[j],
                forall|j: int|
                    0 <= j < k ==> self.bodies@[j] == integrate_model(
                        #[trigger] forced[j],
                        Scalar { raw: DT_RAW },
                    ),
            decreases n - k,
        {
            let mut b = self.bodies[k];
            proof {
                assert(forced[k as int].mass == old(self).bodies@[k as int].mass);
                assert(old(self).bodies@[k as int].mass.v() > 0);
            }
            gravity::apply_force(&mut b, Scalar { raw: DT_RAW });
            self.bodies[k] = b;
            k = k + 1;
        }
    }
}

} // verus!
