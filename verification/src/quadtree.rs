//! The spatial partition: axis-aligned rectangles and the quadtree that
//! recursively subdivides them, aggregating mass bottom-up.
use vstd::prelude::*;

use crate::body::Body;
use crate::fixed::{iabs, lemma_mul_i64_fits, rdiv, sat64, tdiv, Scalar, MAX_RAW};
use crate::vec2::Vec2;
use vstd::multiset::Multiset;

verus! {

/// Index of the top-left quadrant.
pub const A: usize = 0;

/// Index of the top-right quadrant.
pub const B: usize = 1;

/// Index of the bottom-left quadrant.
pub const C: usize = 2;

/// Index of the bottom-right quadrant.
pub const D: usize = 3;

/// Raw width at or below which a leaf stops subdividing (one world unit).
pub const MIN_SIZE_RAW: i64 = 1_000_000;

/// An axis-aligned rectangle between a top-left and a bottom-right corner.
#[derive(Clone, Copy, PartialEq, Eq, Structural, Debug)]
pub struct Rectangle {
    pub tl: Vec2,
    pub br: Vec2,
}

/// The midpoint coordinate of the raw interval `[a, b]`, truncated toward
/// `a` when the raw width is odd.
pub open spec fn mid_raw(a: int, b: int) -> int {
    sat64(a + tdiv(sat64(b - a), 2))
}

impl Rectangle {
    /// Both extents are positive and small enough that raw widths do not
    /// saturate.
    pub open spec fn valid(self) -> bool {
        &&& -(MAX_RAW as int) <= self.tl.x.v() < self.br.x.v()
        &&& -(MAX_RAW as int) <= self.tl.y.v() < self.br.y.v()
        &&& self.br.x.v() - self.tl.x.v() <= MAX_RAW as int
        &&& self.br.y.v() - self.tl.y.v() <= MAX_RAW as int
    }

    /// Half-open containment: at or right of `tl`, strictly left of `br`.
    pub open spec fn contains(self, p: Vec2) -> bool {
        &&& self.tl.x.v() <= p.x.v() < self.br.x.v()
        &&& self.tl.y.v() <= p.y.v() < self.br.y.v()
    }

    /// The center point, each coordinate truncated toward the top-left.
    pub open spec fn midpoint_spec(self) -> Vec2 {
        Vec2 {
            x: Scalar { raw: mid_raw(self.tl.x.v(), self.br.x.v()) as i64 },
            y: Scalar { raw: mid_raw(self.tl.y.v(), self.br.y.v()) as i64 },
        }
    }

    /// The four quadrants in order: top-left, top-right, bottom-left,
    /// bottom-right, split at the midpoint.
    pub open spec fn quadrants_spec(self) -> (Rectangle, Rectangle, Rectangle, Rectangle) {
        let m = self.midpoint_spec();
        (
            Rectangle { tl: self.tl, br: m },
            Rectangle { tl: Vec2 { x: m.x, y: self.tl.y }, br: Vec2 { x: self.br.x, y: m.y } },
            Rectangle { tl: Vec2 { x: self.tl.x, y: m.y }, br: Vec2 { x: m.x, y: self.br.y } },
            Rectangle { tl: m, br: self.br },
        )
    }

    /// The rectangle with the given corners.
    pub fn new(tl: Vec2, br: Vec2) -> (r: Rectangle)
        ensures
            r == (Rectangle { tl, br }),
    {
        Rectangle { tl, br }
    }

    /// Half-open containment test.
    pub fn within(&self, obj_pos: Vec2) -> (r: bool)
        ensures
            r == self.contains(obj_pos),
    {
        obj_pos.x.raw >= self.tl.x.raw && obj_pos.x.raw < self.br.x.raw
            && obj_pos.y.raw >= self.tl.y.raw && obj_pos.y.raw < self.br.y.raw
    }

    /// The center point.
    pub fn midpoint(&self) -> (r: Vec2)
        ensures
            r == self.midpoint_spec(),
    {
        let mx = self.tl.x.add(self.br.x.sub(self.tl.x).half());
        let my = self.tl.y.add(self.br.y.sub(self.tl.y).half());
        Vec2 { x: mx, y: my }
    }

    /// Horizontal extent.
    pub fn width(&self) -> (r: Scalar)
        ensures
            r.v() == sat64(self.br.x.v() - self.tl.x.v()),
    {
        self.br.x.sub(self.tl.x)
    }

    /// Vertical extent.
    pub fn height(&self) -> (r: Scalar)
        ensures
            r.v() == sat64(self.br.y.v() - self.tl.y.v()),
    {
        self.br.y.sub(self.tl.y)
    }

    /// The four quadrants, in the fixed order top-left, top-right,
    /// bottom-left, bottom-right.
    pub fn subranges(&self) -> (r: (Rectangle, Rectangle, Rectangle, Rectangle))
        ensures
            r == self.quadrants_spec(),
    {
        let midpoint: Vec2 = self.midpoint();
        let subrect_b_tl = Vec2::new(midpoint.x, self.tl.y);
        let subrect_b_br = Vec2::new(self.br.x, midpoint.y);
        let subrect_c_tl = Vec2::new(self.tl.x, midpoint.y);
        let subrect_c_br = Vec2::new(midpoint.x, self.br.y);

        let subrect_a = Rectangle::new(self.tl, midpoint);
        let subrect_b = Rectangle::new(subrect_b_tl, subrect_b_br);
        let subrect_c = Rectangle::new(subrect_c_tl, subrect_c_br);
        let subrect_d = Rectangle::new(midpoint, self.br);
        (subrect_a, subrect_b, subrect_c, subrect_d)
    }
}

/// Exact horizontal raw extent of a rectangle.
pub open spec fn width_int(r: Rectangle) -> int {
    r.br.x.v() - r.tl.x.v()
}

/// Exact vertical raw extent of a rectangle.
pub open spec fn height_int(r: Rectangle) -> int {
    r.br.y.v() - r.tl.y.v()
}

/// The quadrant a position routes to: ties on the midpoint go left and up,
/// so the top-left quadrant is preferred.
pub open spec fn quad_index_spec(r: Rectangle, p: Vec2) -> usize {
    let m = r.midpoint_spec();
    if p.x.v() <= m.x.v() {
        if p.y.v() <= m.y.v() {
            A
        } else {
            C
        }
    } else {
        if p.y.v() <= m.y.v() {
            B
        } else {
            D
        }
    }
}

/// Quadrants of a near-square valid rectangle are themselves valid and
/// near-square, and strictly narrower.
pub proof fn lemma_quadrants_shape(r: Rectangle)
    requires
        r.valid(),
        width_int(r) >= 2,
        height_int(r) >= 2,
        iabs(width_int(r) - height_int(r)) <= 1,
    ensures
        ({
            let (qa, qb, qc, qd) = r.quadrants_spec();
            &&& qa.valid() && qb.valid() && qc.valid() && qd.valid()
            &&& iabs(width_int(qa) - height_int(qa)) <= 1
            &&& iabs(width_int(qb) - height_int(qb)) <= 1
            &&& iabs(width_int(qc) - height_int(qc)) <= 1
            &&& iabs(width_int(qd) - height_int(qd)) <= 1
            &&& width_int(qa) < width_int(r) && width_int(qb) < width_int(r)
            &&& width_int(qc) < width_int(r) && width_int(qd) < width_int(r)
        }),
{
    lemma_midpoint_within(r);
}

/// The midpoint of a valid rectangle lies within it on both axes.
pub proof fn lemma_midpoint_within(r: Rectangle)
    requires
        r.valid(),
    ensures
        r.tl.x.v() <= r.midpoint_spec().x.v() < r.br.x.v(),
        r.tl.y.v() <= r.midpoint_spec().y.v() < r.br.y.v(),
{
}

/// The mathematical value of a quadtree node: the same fields, with the
/// child vector and body vector abstracted to sequences.
#[verifier::ext_equal]
pub struct QtModel {
    pub boundaries: Rectangle,
    pub limit: usize,
    pub subtrees: Seq<QtModel>,
    pub bodies: Seq<Body>,
    pub center_of_mass: Option<Vec2>,
    pub total_mass: Scalar,
}

impl QtModel {
    /// Geometric well-formedness: a node has zero or four children; the
    /// children cover exactly the four quadrants, inherit the split
    /// threshold, and are themselves well formed.
    pub open spec fn wf(self) -> bool
        decreases self,
    {
        &&& self.boundaries.valid()
        &&& iabs(width_int(self.boundaries) - height_int(self.boundaries)) <= 1
        &&& (self.subtrees.len() == 0 || self.subtrees.len() == 4)
        &&& (self.subtrees.len() == 4 ==> {
            let (qa, qb, qc, qd) = self.boundaries.quadrants_spec();
            &&& width_int(self.boundaries) >= 2
            &&& height_int(self.boundaries) >= 2
            &&& self.subtrees[0].boundaries == qa
            &&& self.subtrees[1].boundaries == qb
            &&& self.subtrees[2].boundaries == qc
            &&& self.subtrees[3].boundaries == qd
            &&& self.subtrees[0].limit == self.limit
            &&& self.subtrees[1].limit == self.limit
            &&& self.subtrees[2].limit == self.limit
            &&& self.subtrees[3].limit == self.limit
            &&& self.subtrees[0].wf()
            &&& self.subtrees[1].wf()
            &&& self.subtrees[2].wf()
            &&& self.subtrees[3].wf()
        })
    }

    /// Only leaves hold bodies.
    pub open spec fn clean(self) -> bool
        decreases self,
    {
        self.subtrees.len() == 4 ==> {
            &&& self.bodies.len() == 0
            &&& self.subtrees[0].clean()
            &&& self.subtrees[1].clean()
            &&& self.subtrees[2].clean()
            &&& self.subtrees[3].clean()
        }
    }

    /// Every body in the subtree, children first in quadrant order, then the
    /// node's own bodies.
    pub open spec fn body_seq(self) -> Seq<Body>
        decreases self,
    {
        if self.subtrees.len() == 4 {
            self.subtrees[0].body_seq() + self.subtrees[1].body_seq()
                + self.subtrees[2].body_seq() + self.subtrees[3].body_seq() + self.bodies
        } else {
            self.bodies
        }
    }
}

/// Sum of the masses of a body sequence, as an unbounded integer.
pub open spec fn mass_sum(s: Seq<Body>) -> int
    decreases s.len(),
{
    if s.len() == 0 {
        0
    } else {
        mass_sum(s.drop_last()) + s.last().mass.v()
    }
}

/// The models of a vector of child nodes, in order.
pub open spec fn models_of(s: Seq<Quadtree>) -> Seq<QtModel>
    decreases s,
{
    if s.len() == 0 {
        Seq::empty()
    } else {
        models_of(s.drop_last()).push(s.last().model())
    }
}

/// A node of the spatial partition.  The tree is rebuilt from the live body
/// collection every simulation step: `clear`, then `insert` for each body,
/// then `update_mass`.
#[derive(Debug, PartialEq)]
pub struct Quadtree {
    pub boundaries: Rectangle,
    pub limit: usize,
    pub subtrees: Vec<Quadtree>,
    pub bodies: Vec<Body>,
    pub center_of_mass: Option<Vec2>,
    pub total_mass: Scalar,
}

impl Quadtree {
    /// The mathematical value of this node.
    pub open spec fn model(self) -> QtModel
        decreases self,
    {
        QtModel {
            boundaries: self.boundaries,
            limit: self.limit,
            subtrees: models_of(self.subtrees@),
            bodies: self.bodies@,
            center_of_mass: self.center_of_mass,
            total_mass: self.total_mass,
        }
    }
}

impl View for Quadtree {
    type V = QtModel;

    open spec fn view(&self) -> QtModel {
        self.model()
    }
}

/// The model of a freshly created (or freshly cleared) node.
pub open spec fn fresh_model(boundaries: Rectangle, limit: usize) -> QtModel {
    QtModel {
        boundaries,
        limit,
        subtrees: Seq::empty(),
        bodies: Seq::empty(),
        center_of_mass: None,
        total_mass: Scalar { raw: 0 },
    }
}

/// What `split` does: a leaf gains four empty children over its quadrants;
/// an internal node is left unchanged.
pub open spec fn split_model(t: QtModel) -> QtModel {
    if t.subtrees.len() != 0 {
        t
    } else {
        let (qa, qb, qc, qd) = t.boundaries.quadrants_spec();
        QtModel {
            subtrees: seq![
                fresh_model(qa, t.limit),
                fresh_model(qb, t.limit),
                fresh_model(qc, t.limit),
                fresh_model(qd, t.limit),
            ],
            ..t
        }
    }
}

/// A fresh leaf over a valid near-square rectangle is well formed.
pub proof fn lemma_fresh_wf(boundaries: Rectangle, limit: usize)
    requires
        boundaries.valid(),
        iabs(width_int(boundaries) - height_int(boundaries)) <= 1,
    ensures
        fresh_model(boundaries, limit).wf(),
        fresh_model(boundaries, limit).clean(),
{
}

/// Splitting preserves well-formedness whenever the rectangle still has two
/// raw units of extent to divide.
pub proof fn lemma_split_wf(t: QtModel)
    requires
        t.wf(),
        width_int(t.boundaries) >= 2,
        height_int(t.boundaries) >= 2,
    ensures
        split_model(t).wf(),
        split_model(t).bodies == t.bodies,
        split_model(t).boundaries == t.boundaries,
        split_model(t).limit == t.limit,
        t.subtrees.len() == 0 ==> split_model(t).subtrees.len() == 4,
{
    if t.subtrees.len() == 0 {
        lemma_quadrants_shape(t.boundaries);
        let (qa, qb, qc, qd) = t.boundaries.quadrants_spec();
        lemma_fresh_wf(qa, t.limit);
        lemma_fresh_wf(qb, t.limit);
        lemma_fresh_wf(qc, t.limit);
        lemma_fresh_wf(qd, t.limit);
    }
}

/// `models_of` maps indices one to one.
pub proof fn lemma_models_of(s: Seq<Quadtree>)
    ensures
        models_of(s).len() == s.len(),
        forall|i: int| 0 <= i < s.len() ==> models_of(s)[i] == #[trigger] s[i].model(),
    decreases s,
{
    if s.len() > 0 {
        lemma_models_of(s.drop_last());
        assert forall|i: int| 0 <= i < s.len() implies models_of(s)[i] == #[trigger] s[i].model() by {
            if i < s.len() - 1 {
                assert(s.drop_last()[i] == s[i]);
                assert(models_of(s)[i] == models_of(s.drop_last())[i]);
            }
        }
    }
}

/// What `insert` does.  A body lands in a leaf; a leaf that then exceeds its
/// threshold while its boundary still exceeds the minimum subdivision size
/// splits and drains its bodies into the four children; an internal node
/// routes the body to the child its position selects.
///
/// The width guards on the recursive calls hold for every well-formed tree
/// (children cover strictly narrower quadrants); they bound the recursion by
/// the geometric shrinking of the boundary.
pub open spec fn insert_model(t: QtModel, body: Body) -> QtModel
    decreases width_int(t.boundaries), 1int, 0int,
{
    if t.subtrees.len() == 0 {
        let t1 = QtModel { bodies: t.bodies.push(body), ..t };
        if t1.bodies.len() > t1.limit && width_int(t.boundaries) > MIN_SIZE_RAW as int {
            scatter_model(split_model(t1))
        } else {
            t1
        }
    } else {
        let i = quad_index_spec(t.boundaries, body.pos) as int;
        if i < t.subtrees.len() && 0 <= width_int(t.subtrees[i].boundaries)
            && width_int(t.subtrees[i].boundaries) < width_int(t.boundaries) {
            QtModel { subtrees: t.subtrees.update(i, insert_model(t.subtrees[i], body)), ..t }
        } else {
            t
        }
    }
}

/// Drain a node's bodies, last first, each into the child its position
/// selects.
pub open spec fn scatter_model(t: QtModel) -> QtModel
    decreases width_int(t.boundaries), 0int, t.bodies.len(),
{
    if t.bodies.len() == 0 {
        t
    } else {
        let b = t.bodies.last();
        let i = quad_index_spec(t.boundaries, b.pos) as int;
        if i < t.subtrees.len() && 0 <= width_int(t.subtrees[i].boundaries)
            && width_int(t.subtrees[i].boundaries) < width_int(t.boundaries) {
            scatter_model(
                QtModel {
                    bodies: t.bodies.drop_last(),
                    subtrees: t.subtrees.update(i, insert_model(t.subtrees[i], b)),
                    ..t
                },
            )
        } else {
            t
        }
    }
}

/// The product of an `i64` position and a nonnegative `i64` mass leaves
/// room in `i128` for a second such term.
pub proof fn lemma_mul_mass_fits(p: int, m: int)
    requires
        -0x8000_0000_0000_0000 <= p <= 0x7fff_ffff_ffff_ffff,
        0 <= m <= 0x7fff_ffff_ffff_ffff,
    ensures
        iabs(p * m) <= 0x3fff_ffff_ffff_ffff_8000_0000_0000_0000,
{
    assert(iabs(p * m) <= 0x3fff_ffff_ffff_ffff_8000_0000_0000_0000) by (nonlinear_arith)
        requires
            -0x8000_0000_0000_0000 <= p <= 0x7fff_ffff_ffff_ffff,
            0 <= m <= 0x7fff_ffff_ffff_ffff,
    ;
}

/// One folded body keeps the running mass nonnegative, and positive once
/// anything has been folded in.
pub proof fn lemma_leaf_fold_mass(bodies: Seq<Body>, c: Vec2, m: Scalar)
    requires
        m.v() >= 0,
        forall|i: int| 0 <= i < bodies.len() ==> (#[trigger] bodies[i]).mass.v() > 0,
    ensures
        leaf_fold(bodies, c, m).1.v() >= m.v(),
        bodies.len() > 0 || m.v() > 0 ==> leaf_fold(bodies, c, m).1.v() > 0,
    decreases bodies.len(),
{
    if bodies.len() > 0 {
        let s = leaf_step(c, m, bodies[0]);
        assert(forall|i: int|
            0 <= i < bodies.drop_first().len() ==> (#[trigger] bodies.drop_first()[i]).mass.v()
                > 0);
        lemma_leaf_fold_mass(bodies.drop_first(), s.0, s.1);
    }
}

/// After `update_mass`, the total mass is nonnegative and positive wherever
/// a center of mass is present.
pub proof fn lemma_um_mass_ok(t: QtModel)
    requires
        t.pos_masses(),
    ensures
        update_mass_model(t).mass_ok(),
    decreases t,
{
    if t.subtrees.len() == 4 {
        lemma_um_mass_ok(t.subtrees[0]);
        lemma_um_mass_ok(t.subtrees[1]);
        lemma_um_mass_ok(t.subtrees[2]);
        lemma_um_mass_ok(t.subtrees[3]);
    } else {
        if t.bodies.len() > 0 {
            lemma_leaf_fold_mass(
                t.bodies,
                Vec2 { x: Scalar { raw: 0 }, y: Scalar { raw: 0 } },
                Scalar { raw: 0 },
            );
        }
    }
}

/// Replacing one element of a child vector replaces one model in the model
/// sequence.
pub proof fn lemma_models_of_update(s: Seq<Quadtree>, i: int, q: Quadtree)
    requires
        0 <= i < s.len(),
    ensures
        models_of(s.update(i, q)) =~= models_of(s).update(i, q.model()),
{
    lemma_models_of(s);
    lemma_models_of(s.update(i, q));
    assert forall|j: int| 0 <= j < s.len() implies models_of(s.update(i, q))[j] == models_of(
        s,
    ).update(i, q.model())[j] by {
        if j == i {
            assert(s.update(i, q)[j] == q);
            assert(s.update(i, q)[j].model() == q.model());
        } else {
            assert(s.update(i, q)[j] == s[j]);
            assert(s.update(i, q)[j].model() == s[j].model());
            assert(models_of(s)[j] == s[j].model());
        }
    }
}

impl Quadtree {
    /// An empty leaf over the given boundary with the given split threshold.
    pub fn new(boundaries: Rectangle, limit: usize) -> (r: Quadtree)
        ensures
            r@ == fresh_model(boundaries, limit),
    {
        let r = Quadtree {
            boundaries,
            limit,
            subtrees: Vec::new(),
            bodies: Vec::new(),
            center_of_mass: None,
            total_mass: Scalar { raw: 0 },
        };
        proof {
            assert(r@ =~~= fresh_model(boundaries, limit));
        }
        r
    }

    /// Discard all bodies and all children; the node becomes an empty leaf
    /// over the same boundary, with no mass and no center of mass.
    pub fn clear(&mut self)
        ensures
            final(self)@ == fresh_model(old(self).boundaries, old(self).limit),
    {
        self.bodies = Vec::new();
        self.subtrees = Vec::new();
        self.center_of_mass = None;
        self.total_mass = Scalar { raw: 0 };
        proof {
            assert(self@ =~~= fresh_model(self.boundaries, self.limit));
        }
    }

    /// Give a leaf four empty children over its quadrants; a node that is
    /// already internal is left unchanged.
    pub fn split(&mut self)
        ensures
            final(self)@ == split_model(old(self)@),
    {
        if self.subtrees.len() != 0 {
            return ;
        }
        let subranges = self.boundaries.subranges();
        self.subtrees.push(Quadtree::new(subranges.0, self.limit));
        self.subtrees.push(Quadtree::new(subranges.1, self.limit));
        self.subtrees.push(Quadtree::new(subranges.2, self.limit));
        self.subtrees.push(Quadtree::new(subranges.3, self.limit));
        proof {
            let s = self.subtrees@;
            lemma_models_of(s);
            assert(models_of(s)[0] == s[0].model());
            assert(models_of(s)[1] == s[1].model());
            assert(models_of(s)[2] == s[2].model());
            assert(models_of(s)[3] == s[3].model());
            assert(models_of(s) =~= split_model(old(self)@).subtrees);
            assert(self@ =~~= split_model(old(self)@));
        }
    }

    /// Insert a body.  A leaf appends it; a leaf that then exceeds its
    /// threshold splits and re-routes every held body into the children,
    /// unless its boundary has already reached the minimum subdivision size,
    /// in which case bodies keep accumulating; an internal node routes the
    /// body to the child selected by its position.
    pub fn insert(&mut self, body: Body)
        requires
            old(self)@.wf(),
        ensures
            final(self)@ == insert_model(old(self)@, body),
            final(self)@.wf(),
            final(self).boundaries == old(self).boundaries,
            final(self).limit == old(self).limit,
        decreases width_int(old(self).boundaries),
    {
        proof {
            lemma_models_of(self.subtrees@);
        }
        if self.subtrees.len() == 0 {
            self.bodies.push(body);
            let ghost t1 = QtModel { bodies: old(self)@.bodies.push(body), ..old(self)@ };
            proof {
                assert(self@ =~~= t1);
            }
            if self.bodies.len() > self.limit {
                let w = self.boundaries.width();
                if w.raw > MIN_SIZE_RAW {
                    proof {
                        lemma_split_wf(t1);
                    }
                    self.split();
                    while self.bodies.len() > 0
                        invariant
                            self@.wf(),
                            self@.subtrees.len() == 4,
                            self.boundaries == old(self).boundaries,
                            self.limit == old(self).limit,
                            scatter_model(self@) == insert_model(old(self)@, body),
                        decreases self.bodies.len(),
                    {
                        let ghost pre = self@;
                        proof {
                            lemma_models_of(self.subtrees@);
                            lemma_quadrants_shape(self.boundaries);
                        }
                        let b = self.bodies.pop().unwrap();
                        let idx = self.subtree_index(b.pos).unwrap();
                        assert(idx < 4);
                        let ghost skids = self.subtrees@;
                        proof {
                            assert(self@.subtrees[idx as int] == skids[idx as int]@);
                            assert(self@.subtrees[idx as int].wf());
                            assert(width_int(self@.subtrees[idx as int].boundaries) < width_int(
                                self.boundaries));
                        }
                        self.subtrees[idx].insert(b);
                        proof {
                            lemma_models_of_update(
                                skids,
                                idx as int,
                                self.subtrees@[idx as int],
                            );
                            let post = QtModel {
                                bodies: pre.bodies.drop_last(),
                                subtrees: pre.subtrees.update(
                                    idx as int,
                                    insert_model(pre.subtrees[idx as int], b),
                                ),
                                ..pre
                            };
                            assert(pre.bodies.drop_last() =~= pre.bodies.subrange(
                                0,
                                pre.bodies.len() - 1,
                            ));
                            assert(self@ =~~= post);
                            assert(scatter_model(pre) == scatter_model(post));
                        }
                    }
                    proof {
                        assert(scatter_model(self@) == self@);
                    }
                }
            }
        } else {
            let idx = self.subtree_index(body.pos).unwrap();
            assert(idx < 4);
            let ghost skids = self.subtrees@;
            proof {
                lemma_quadrants_shape(self.boundaries);
                assert(self@.subtrees[idx as int] == skids[idx as int]@);
                assert(self@.subtrees[idx as int].wf());
                assert(width_int(self@.subtrees[idx as int].boundaries) < width_int(
                    self.boundaries));
            }
            self.subtrees[idx].insert(body);
            proof {
                lemma_models_of_update(skids, idx as int, self.subtrees@[idx as int]);
                assert(self@ =~~= (QtModel {
                    subtrees: old(self)@.subtrees.update(
                        idx as int,
                        insert_model(old(self)@.subtrees[idx as int], body),
                    ),
                    ..old(self)@
                }));
            }
        }
    }

    /// Post-order mass aggregation: leaves fold their bodies, internal
    /// nodes first update all four children, then fold the children's
    /// aggregates.  Must run once per rebuild before any force traversal.
    #[verifier::rlimit(50)]
    pub fn update_mass(&mut self)
        requires
            old(self)@.wf(),
            old(self)@.pos_masses(),
        ensures
            final(self)@ == update_mass_model(old(self)@),
        decreases width_int(old(self).boundaries),
    {
        proof {
            lemma_models_of(self.subtrees@);
        }
        if self.subtrees.len() == 0 {
            self.calculate_center_leaf();
            return ;
        }
        let ghost s0 = self.subtrees@;
        proof {
            lemma_quadrants_shape(self.boundaries);
            assert(self@.subtrees[0] == s0[0]@ && self@.subtrees[1] == s0[1]@ && self@.subtrees[2]
                == s0[2]@ && self@.subtrees[3] == s0[3]@);
            assert(s0[0]@.boundaries == s0[0].boundaries && s0[1]@.boundaries == s0[1].boundaries
                && s0[2]@.boundaries == s0[2].boundaries && s0[3]@.boundaries
                == s0[3].boundaries);
        }
        self.subtrees[0].update_mass();
        proof {
            lemma_models_of_update(s0, 0, self.subtrees@[0]);
        }
        let ghost s1 = self.subtrees@;
        proof {
            assert(s1[1] == s0[1] && s1[2] == s0[2] && s1[3] == s0[3]);
        }
        self.subtrees[1].update_mass();
        proof {
            lemma_models_of_update(s1, 1, self.subtrees@[1]);
        }
        let ghost s2 = self.subtrees@;
        proof {
            assert(s2[2] == s0[2] && s2[3] == s0[3]);
        }
        self.subtrees[2].update_mass();
        proof {
            lemma_models_of_update(s2, 2, self.subtrees@[2]);
        }
        let ghost s3 = self.subtrees@;
        proof {
            assert(s3[3] == s0[3]);
        }
        self.subtrees[3].update_mass();
        proof {
            lemma_models_of_update(s3, 3, self.subtrees@[3]);
            lemma_um_mass_ok(old(self)@.subtrees[0]);
            lemma_um_mass_ok(old(self)@.subtrees[1]);
            lemma_um_mass_ok(old(self)@.subtrees[2]);
            lemma_um_mass_ok(old(self)@.subtrees[3]);
            assert(self@.subtrees =~= seq![
                update_mass_model(old(self)@.subtrees[0]),
                update_mass_model(old(self)@.subtrees[1]),
                update_mass_model(old(self)@.subtrees[2]),
                update_mass_model(old(self)@.subtrees[3]),
            ]);
        }
        self.calculate_center_node();
        proof {
            assert(self@ =~~= update_mass_model(old(self)@));
        }
    }

    /// Fold every body of this leaf into a fresh centroid/mass pair; an
    /// empty leaf gets no center of mass and zero total mass.
    pub fn calculate_center_leaf(&mut self)
        requires
            forall|i: int|
                0 <= i < old(self)@.bodies.len() ==> (#[trigger] old(
                    self,
                )@.bodies[i]).mass.v() > 0,
        ensures
            final(self)@ == center_leaf_model(old(self)@),
    {
        if self.bodies.len() == 0 {
            self.center_of_mass = None;
            self.total_mass = Scalar { raw: 0 };
            proof {
                assert(self@ =~~= center_leaf_model(old(self)@));
            }
            return ;
        }
        let ghost zc = Vec2 { x: Scalar { raw: 0 }, y: Scalar { raw: 0 } };
        let ghost zm = Scalar { raw: 0 };
        let mut c = Vec2::zero();
        let mut m = Scalar::zero();
        let n = self.bodies.len();
        let mut i: usize = 0;
        proof {
            assert(self.bodies@.skip(0) =~= self.bodies@);
            assert(c == zc && m == zm);
        }
        while i < n
            invariant
                i <= n,
                n == self.bodies.len(),
                *self == *old(self),
                m.v() >= 0,
                forall|j: int|
                    0 <= j < old(self)@.bodies.len() ==> (#[trigger] old(
                        self,
                    )@.bodies[j]).mass.v() > 0,
                leaf_fold(self.bodies@.skip(i as int), c, m) == leaf_fold(
                    old(self)@.bodies,
                    zc,
                    zm,
                ),
            decreases n - i,
        {
            let ghost pre_rest = self.bodies@.skip(i as int);
            let ghost pre_c = c;
            let ghost pre_m = m;
            let b = self.bodies[i];
            proof {
                assert(pre_rest[0] == b);
            }
            c = self.center_between_two_points(c, m, b.pos, b.mass);
            m = m.add(b.mass);
            i += 1;
            proof {
                assert(pre_rest.drop_first() =~= self.bodies@.skip(i as int));
                assert((c, m) == leaf_step(pre_c, pre_m, b));
            }
        }
        self.center_of_mass = Some(c);
        self.total_mass = m;
        proof {
            assert(self.bodies@.skip(n as int) =~= Seq::<Body>::empty());
            assert(self@ =~~= center_leaf_model(old(self)@));
        }
    }

    /// Fold the four children's centroid/mass aggregates, in quadrant
    /// order, skipping empty children; a node whose children are all empty
    /// gets no center of mass and zero total mass.
    pub fn calculate_center_node(&mut self)
        requires
            old(self)@.subtrees.len() == 4,
            old(self)@.subtrees[0].mass_ok(),
            old(self)@.subtrees[1].mass_ok(),
            old(self)@.subtrees[2].mass_ok(),
            old(self)@.subtrees[3].mass_ok(),
        ensures
            final(self)@ == center_node_model(old(self)@),
    {
        proof {
            lemma_models_of(self.subtrees@);
            assert(self@.subtrees[0] == self.subtrees@[0]@);
            assert(self@.subtrees[1] == self.subtrees@[1]@);
            assert(self@.subtrees[2] == self.subtrees@[2]@);
            assert(self@.subtrees[3] == self.subtrees@[3]@);
        }
        let mut c = Vec2::zero();
        let mut m = Scalar::zero();
        let mut any = false;
        match self.subtrees[0].center_of_mass {
            Some(k) => {
                c = self.center_between_two_points(c, m, k, self.subtrees[0].total_mass);
                m = m.add(self.subtrees[0].total_mass);
                any = true;
            },
            None => {},
        }
        match self.subtrees[1].center_of_mass {
            Some(k) => {
                c = self.center_between_two_points(c, m, k, self.subtrees[1].total_mass);
                m = m.add(self.subtrees[1].total_mass);
                any = true;
            },
            None => {},
        }
        match self.subtrees[2].center_of_mass {
            Some(k) => {
                c = self.center_between_two_points(c, m, k, self.subtrees[2].total_mass);
                m = m.add(self.subtrees[2].total_mass);
                any = true;
            },
            None => {},
        }
        match self.subtrees[3].center_of_mass {
            Some(k) => {
                c = self.center_between_two_points(c, m, k, self.subtrees[3].total_mass);
                m = m.add(self.subtrees[3].total_mass);
                any = true;
            },
            None => {},
        }
        self.center_of_mass = if any {
            Some(c)
        } else {
            None
        };
        self.total_mass = m;
        proof {
            assert(self@ =~~= center_node_model(old(self)@));
        }
    }

    /// The mass-weighted centroid of two point masses, by the two-point
    /// combination rule `(pos_a*mass_a + pos_b*mass_b) / (mass_a+mass_b)`.
    pub fn center_between_two_points(
        &self,
        pos_a: Vec2,
        mass_a: Scalar,
        pos_b: Vec2,
        mass_b: Scalar,
    ) -> (r: Vec2)
        requires
            mass_a.v() >= 0,
            mass_b.v() >= 0,
            mass_a.v() + mass_b.v() > 0,
        ensures
            r == combine_spec(pos_a, mass_a, pos_b, mass_b),
    {
        Vec2 {
            x: combine_axis_exec(pos_a.x, mass_a, pos_b.x, mass_b),
            y: combine_axis_exec(pos_a.y, mass_a, pos_b.y, mass_b),
        }
    }

    /// The child index a position routes to, or `None` at a leaf.  Ties on
    /// the midpoint go to the lower-index quadrant.
    pub fn subtree_index(&self, pos: Vec2) -> (r: Option<usize>)
        ensures
            r == (if self@.subtrees.len() == 0 {
                Option::<usize>::None
            } else {
                Option::Some(quad_index_spec(self.boundaries, pos))
            }),
    {
        if self.subtrees.len() == 0 {
            return None;
        }
        proof {
            lemma_models_of(self.subtrees@);
        }
        let midpoint = self.boundaries.midpoint();
        if pos.x.le(midpoint.x) {
            if pos.y.le(midpoint.y) {
                Some(A)
            } else {
                Some(C)
            }
        } else {
            if pos.y.le(midpoint.y) {
                Some(B)
            } else {
                Some(D)
            }
        }
    }
}

/// One coordinate of the two-point weighted-centroid combination:
/// `(pa*ma + pb*mb) / (ma + mb)`, rounded to the nearest representable
/// scalar (ties away from zero).
pub open spec fn combine_axis(pa: int, ma: int, pb: int, mb: int) -> int {
    sat64(rdiv(pa * ma + pb * mb, ma + mb))
}

/// The mass-weighted centroid of two point masses.
pub open spec fn combine_spec(pos_a: Vec2, mass_a: Scalar, pos_b: Vec2, mass_b: Scalar) -> Vec2 {
    Vec2 {
        x: Scalar {
            raw: combine_axis(pos_a.x.v(), mass_a.v(), pos_b.x.v(), mass_b.v()) as i64,
        },
        y: Scalar {
            raw: combine_axis(pos_a.y.v(), mass_a.v(), pos_b.y.v(), mass_b.v()) as i64,
        },
    }
}

/// Folding one body into a running centroid/mass pair.
pub open spec fn leaf_step(acc_c: Vec2, acc_m: Scalar, b: Body) -> (Vec2, Scalar) {
    (
        combine_spec(acc_c, acc_m, b.pos, b.mass),
        Scalar { raw: sat64(acc_m.v() + b.mass.v()) as i64 },
    )
}

/// Folding every body of a leaf, front to back.
pub open spec fn leaf_fold(bodies: Seq<Body>, acc_c: Vec2, acc_m: Scalar) -> (Vec2, Scalar)
    decreases bodies.len(),
{
    if bodies.len() == 0 {
        (acc_c, acc_m)
    } else {
        let s = leaf_step(acc_c, acc_m, bodies[0]);
        leaf_fold(bodies.drop_first(), s.0, s.1)
    }
}

/// What `calculate_center_leaf` does: an empty leaf has no center of mass
/// and zero total mass; otherwise both come from folding every body into a
/// running centroid/mass pair.
pub open spec fn center_leaf_model(t: QtModel) -> QtModel {
    if t.bodies.len() == 0 {
        QtModel { center_of_mass: None, total_mass: Scalar { raw: 0 }, ..t }
    } else {
        let r = leaf_fold(
            t.bodies,
            Vec2 { x: Scalar { raw: 0 }, y: Scalar { raw: 0 } },
            Scalar { raw: 0 },
        );
        QtModel { center_of_mass: Some(r.0), total_mass: r.1, ..t }
    }
}

/// Folding one child's aggregate into a running centroid/mass pair; an
/// empty child (no center of mass) contributes nothing.
pub open spec fn node_step(acc: (Vec2, Scalar, bool), kid: QtModel) -> (Vec2, Scalar, bool) {
    match kid.center_of_mass {
        None => acc,
        Some(c) => (
            combine_spec(acc.0, acc.1, c, kid.total_mass),
            Scalar { raw: sat64(acc.1.v() + kid.total_mass.v()) as i64 },
            true,
        ),
    }
}

/// What `calculate_center_node` does: fold the four children's aggregates
/// in quadrant order; if every child is empty the node has no center of
/// mass and zero total mass.
pub open spec fn center_node_model(t: QtModel) -> QtModel {
    if t.subtrees.len() == 4 {
        let a0 = (
            Vec2 { x: Scalar { raw: 0 }, y: Scalar { raw: 0 } },
            Scalar { raw: 0 },
            false,
        );
        let a1 = node_step(a0, t.subtrees[0]);
        let a2 = node_step(a1, t.subtrees[1]);
        let a3 = node_step(a2, t.subtrees[2]);
        let a4 = node_step(a3, t.subtrees[3]);
        QtModel {
            center_of_mass: if a4.2 {
                Some(a4.0)
            } else {
                None
            },
            total_mass: a4.1,
            ..t
        }
    } else {
        t
    }
}

/// What `update_mass` does: leaves fold their bodies; internal nodes first
/// update all four children, then fold the children's aggregates.
pub open spec fn update_mass_model(t: QtModel) -> QtModel
    decreases t,
{
    if t.subtrees.len() == 4 {
        let kids = seq![
            update_mass_model(t.subtrees[0]),
            update_mass_model(t.subtrees[1]),
            update_mass_model(t.subtrees[2]),
            update_mass_model(t.subtrees[3]),
        ];
        center_node_model(QtModel { subtrees: kids, ..t })
    } else {
        center_leaf_model(t)
    }
}

impl QtModel {
    /// Every body in the subtree has positive mass.
    pub open spec fn pos_masses(self) -> bool
        decreases self,
    {
        &&& (forall|i: int|
            0 <= i < self.bodies.len() ==> (#[trigger] self.bodies[i]).mass.v() > 0)
        &&& (self.subtrees.len() == 4 ==> {
            &&& self.subtrees[0].pos_masses()
            &&& self.subtrees[1].pos_masses()
            &&& self.subtrees[2].pos_masses()
            &&& self.subtrees[3].pos_masses()
        })
    }

    /// A sound mass summary: nonnegative total, positive whenever a center
    /// of mass is present.
    pub open spec fn mass_ok(self) -> bool {
        &&& self.total_mass.v() >= 0
        &&& (self.center_of_mass is Some ==> self.total_mass.v() > 0)
    }

    /// Every subtree has a center of mass exactly when it holds a body.
    pub open spec fn com_faithful(self) -> bool
        decreases self,
    {
        &&& (self.center_of_mass is Some <==> self.body_seq().len() > 0)
        &&& (self.subtrees.len() == 4 ==> {
            &&& self.subtrees[0].com_faithful()
            &&& self.subtrees[1].com_faithful()
            &&& self.subtrees[2].com_faithful()
            &&& self.subtrees[3].com_faithful()
        })
    }
}

/// `update_mass` leaves the shape and the bodies alone and makes every
/// center-of-mass field faithful: present exactly on nonempty subtrees.
pub proof fn lemma_um_faithful(t: QtModel)
    requires
        t.wf(),
        t.clean(),
        t.pos_masses(),
    ensures
        ({
            let r = update_mass_model(t);
            &&& r.com_faithful()
            &&& r.body_seq() == t.body_seq()
            &&& r.subtrees.len() == t.subtrees.len()
            &&& r.boundaries == t.boundaries
            &&& r.limit == t.limit
            &&& r.wf()
            &&& r.clean()
        }),
    decreases t,
{
    if t.subtrees.len() == 4 {
        lemma_um_faithful(t.subtrees[0]);
        lemma_um_faithful(t.subtrees[1]);
        lemma_um_faithful(t.subtrees[2]);
        lemma_um_faithful(t.subtrees[3]);
        let r = update_mass_model(t);
        assert(r.body_seq() =~= t.body_seq());
    }
}

/// Inserting a sequence of bodies in order.
pub open spec fn insert_all(t: QtModel, s: Seq<Body>) -> QtModel
    decreases s.len(),
{
    if s.len() == 0 {
        t
    } else {
        insert_all(insert_model(t, s[0]), s.drop_first())
    }
}

/// A sequence of positive masses sums to something nonnegative.
pub proof fn lemma_mass_sum_nonneg(s: Seq<Body>)
    requires
        forall|i: int| 0 <= i < s.len() ==> (#[trigger] s[i]).mass.v() > 0,
    ensures
        mass_sum(s) >= 0,
        s.len() > 0 ==> mass_sum(s) > 0,
    decreases s.len(),
{
    if s.len() > 0 {
        lemma_mass_sum_nonneg(s.drop_last());
    }
}

/// The mass sum can also be peeled from the front.
pub proof fn lemma_mass_sum_first(s: Seq<Body>)
    requires
        s.len() > 0,
    ensures
        mass_sum(s) == s[0].mass.v() + mass_sum(s.drop_first()),
    decreases s.len(),
{
    if s.len() == 1 {
        assert(s.drop_first() =~= Seq::<Body>::empty());
        assert(s.drop_last() =~= Seq::<Body>::empty());
    } else {
        lemma_mass_sum_first(s.drop_last());
        assert(s.drop_last()[0] == s[0]);
        assert(s.drop_last().drop_first() =~= s.drop_first().drop_last());
        assert(s.drop_first().last() == s.last());
    }
}

/// The mass sum distributes over concatenation.
pub proof fn lemma_mass_sum_concat(a: Seq<Body>, b: Seq<Body>)
    ensures
        mass_sum(a + b) == mass_sum(a) + mass_sum(b),
    decreases b.len(),
{
    if b.len() == 0 {
        assert(a + b =~= a);
    } else {
        lemma_mass_sum_concat(a, b.drop_last());
        assert((a + b).drop_last() =~= a + b.drop_last());
        assert((a + b).last() == b.last());
    }
}

/// Removing one body removes its mass from the sum.
pub proof fn lemma_mass_sum_remove(s: Seq<Body>, i: int)
    requires
        0 <= i < s.len(),
    ensures
        mass_sum(s) == mass_sum(s.remove(i)) + s[i].mass.v(),
    decreases s.len(),
{
    if i == s.len() - 1 {
        assert(s.remove(i) =~= s.drop_last());
    } else {
        lemma_mass_sum_remove(s.drop_last(), i);
        assert(s.remove(i).drop_last() =~= s.drop_last().remove(i));
        assert(s.remove(i).last() == s.last());
        assert(s.drop_last()[i] == s[i]);
    }
}

/// The mass sum depends only on which bodies occur, not on their order.
pub proof fn lemma_mass_sum_permutation(s1: Seq<Body>, s2: Seq<Body>)
    requires
        s1.to_multiset() == s2.to_multiset(),
    ensures
        mass_sum(s1) == mass_sum(s2),
    decreases s1.len(),
{
    broadcast use vstd::seq_lib::group_to_multiset_ensures;

    if s1.len() > 0 {
        let a = s1.last();
        assert(s1.to_multiset().count(a) > 0);
        assert(s2.contains(a));
        let i = choose|i: int| 0 <= i < s2.len() && s2[i] == a;
        lemma_mass_sum_remove(s2, i);
        assert(s1.drop_last() =~= s1.remove(s1.len() - 1));
        lemma_mass_sum_permutation(s1.drop_last(), s2.remove(i));
    } else {
        assert(s2.to_multiset().len() == 0);
        if s2.len() > 0 {
            assert(s2.to_multiset().len() == s2.len());
        }
    }
}

/// Multiset decomposition of the bodies of an internal node.
pub proof fn lemma_bs_node(t: QtModel)
    requires
        t.subtrees.len() == 4,
    ensures
        t.body_seq().to_multiset() =~= t.subtrees[0].body_seq().to_multiset().add(
            t.subtrees[1].body_seq().to_multiset(),
        ).add(t.subtrees[2].body_seq().to_multiset()).add(
            t.subtrees[3].body_seq().to_multiset(),
        ).add(t.bodies.to_multiset()),
{
    broadcast use vstd::seq_lib::lemma_multiset_commutative;

    let k0 = t.subtrees[0].body_seq();
    let k1 = t.subtrees[1].body_seq();
    let k2 = t.subtrees[2].body_seq();
    let k3 = t.subtrees[3].body_seq();
    assert(t.body_seq() == k0 + k1 + k2 + k3 + t.bodies);
    assert((k0 + k1 + k2 + k3 + t.bodies).to_multiset() == (k0 + k1 + k2
        + k3).to_multiset().add(t.bodies.to_multiset()));
    assert((k0 + k1 + k2 + k3).to_multiset() == (k0 + k1 + k2).to_multiset().add(
        k3.to_multiset(),
    ));
    assert((k0 + k1 + k2).to_multiset() == (k0 + k1).to_multiset().add(k2.to_multiset()));
    assert((k0 + k1).to_multiset() == k0.to_multiset().add(k1.to_multiset()));
}

/// Insertion preserves well-formedness, the boundary, the threshold and the
/// cleanliness and mass positivity of the tree, and adds exactly the new
/// body to the subtree's bodies.
pub proof fn lemma_insert_props(t: QtModel, b: Body)
    requires
        t.wf(),
    ensures
        ({
            let r = insert_model(t, b);
            &&& r.wf()
            &&& r.boundaries == t.boundaries
            &&& r.limit == t.limit
            &&& r.body_seq().to_multiset() =~= t.body_seq().to_multiset().insert(b)
            &&& (t.clean() ==> r.clean())
            &&& (t.pos_masses() && b.mass.v() > 0 ==> r.pos_masses())
        }),
    decreases width_int(t.boundaries), 1int, 0int,
{
    broadcast use vstd::seq_lib::group_to_multiset_ensures;

    let r = insert_model(t, b);
    if t.subtrees.len() == 0 {
        let t1 = QtModel { bodies: t.bodies.push(b), ..t };
        assert(t1.wf());
        if t1.bodies.len() > t1.limit && width_int(t.boundaries) > MIN_SIZE_RAW as int {
            let t2 = split_model(t1);
            lemma_split_wf(t1);
            lemma_bs_node(t2);
            assert(t2.subtrees[0].body_seq() =~= Seq::<Body>::empty());
            assert(t2.subtrees[1].body_seq() =~= Seq::<Body>::empty());
            assert(t2.subtrees[2].body_seq() =~= Seq::<Body>::empty());
            assert(t2.subtrees[3].body_seq() =~= Seq::<Body>::empty());
            assert(Seq::<Body>::empty().to_multiset() =~= Multiset::<Body>::empty());
            assert(t2.body_seq().to_multiset() =~= t1.bodies.to_multiset());
            lemma_scatter_props(t2);
            if t.pos_masses() && b.mass.v() > 0 {
                assert forall|j: int| 0 <= j < t2.bodies.len() implies (#[trigger] t2.bodies[j]).mass.v()
                    > 0 by {
                    if j < t.bodies.len() {
                        assert(t2.bodies[j] == t.bodies[j]);
                    } else {
                        assert(t2.bodies[j] == b);
                    }
                }
                let (qa, qb, qc, qd) = t.boundaries.quadrants_spec();
                assert(fresh_model(qa, t.limit).pos_masses());
                assert(fresh_model(qb, t.limit).pos_masses());
                assert(fresh_model(qc, t.limit).pos_masses());
                assert(fresh_model(qd, t.limit).pos_masses());
                assert(t2.pos_masses());
            }
            assert(r.body_seq().to_multiset() =~= t.body_seq().to_multiset().insert(b));
        } else {
            assert(r == t1);
            assert(r.body_seq() == t.bodies.push(b));
            if t.pos_masses() && b.mass.v() > 0 {
                assert forall|i: int| 0 <= i < r.bodies.len() implies (#[trigger] r.bodies[i]).mass.v()
                    > 0 by {
                    if i < t.bodies.len() {
                        assert(r.bodies[i] == t.bodies[i]);
                    }
                }
            }
        }
    } else {
        let i = quad_index_spec(t.boundaries, b.pos) as int;
        lemma_quadrants_shape(t.boundaries);
        assert(0 <= i < 4);
        let ki = t.subtrees[i];
        assert(ki.wf() && width_int(ki.boundaries) < width_int(t.boundaries) && 0 <= width_int(
            ki.boundaries,
        ));
        lemma_insert_props(ki, b);
        let ki2 = insert_model(ki, b);
        assert(r == (QtModel { subtrees: t.subtrees.update(i, ki2), ..t }));
        assert(r.wf());
        lemma_bs_node(t);
        lemma_bs_node(r);
        assert(r.body_seq().to_multiset() =~= t.body_seq().to_multiset().insert(b));
        if t.clean() {
            assert(r.clean());
        }
        if t.pos_masses() && b.mass.v() > 0 {
            assert(r.pos_masses());
        }
    }
}

/// Draining a split node's bodies into its children preserves the node's
/// shape invariants and its multiset of bodies, and empties the node's own
/// body list.
pub proof fn lemma_scatter_props(t: QtModel)
    requires
        t.wf(),
        t.subtrees.len() == 4,
    ensures
        ({
            let r = scatter_model(t);
            &&& r.wf()
            &&& r.subtrees.len() == 4
            &&& r.boundaries == t.boundaries
            &&& r.limit == t.limit
            &&& r.bodies.len() == 0
            &&& r.body_seq().to_multiset() =~= t.body_seq().to_multiset()
            &&& ((t.subtrees[0].clean() && t.subtrees[1].clean() && t.subtrees[2].clean()
                && t.subtrees[3].clean()) ==> r.clean())
            &&& (t.pos_masses() ==> r.pos_masses())
        }),
    decreases width_int(t.boundaries), 0int, t.bodies.len(),
{
    broadcast use vstd::seq_lib::group_to_multiset_ensures;

    let r = scatter_model(t);
    if t.bodies.len() == 0 {
    } else {
        let b = t.bodies.last();
        let i = quad_index_spec(t.boundaries, b.pos) as int;
        lemma_quadrants_shape(t.boundaries);
        assert(0 <= i < 4);
        let ki = t.subtrees[i];
        assert(ki.wf() && width_int(ki.boundaries) < width_int(t.boundaries) && 0 <= width_int(
            ki.boundaries,
        ));
        lemma_insert_props(ki, b);
        let t2 = QtModel {
            bodies: t.bodies.drop_last(),
            subtrees: t.subtrees.update(i, insert_model(ki, b)),
            ..t
        };
        assert(t2.wf());
        if t.pos_masses() {
            assert(b.mass.v() > 0);
            assert forall|j: int| 0 <= j < t2.bodies.len() implies (#[trigger] t2.bodies[j]).mass.v()
                > 0 by {
                assert(t2.bodies[j] == t.bodies[j]);
            }
            assert(t2.pos_masses());
        }
        lemma_bs_node(t);
        lemma_bs_node(t2);
        assert(t.bodies =~= t.bodies.drop_last().push(b));
        assert(t2.body_seq().to_multiset() =~= t.body_seq().to_multiset());
        lemma_scatter_props(t2);
    }
}

/// The bodies of a tree whose masses are positive have a nonnegative sum,
/// positive as soon as the tree is nonempty.
pub proof fn lemma_bs_mass_nonneg(t: QtModel)
    requires
        t.pos_masses(),
    ensures
        mass_sum(t.body_seq()) >= 0,
        t.body_seq().len() > 0 ==> mass_sum(t.body_seq()) > 0,
    decreases t,
{
    if t.subtrees.len() == 4 {
        lemma_bs_mass_nonneg(t.subtrees[0]);
        lemma_bs_mass_nonneg(t.subtrees[1]);
        lemma_bs_mass_nonneg(t.subtrees[2]);
        lemma_bs_mass_nonneg(t.subtrees[3]);
        lemma_mass_sum_nonneg(t.bodies);
        let k0 = t.subtrees[0].body_seq();
        let k1 = t.subtrees[1].body_seq();
        let k2 = t.subtrees[2].body_seq();
        let k3 = t.subtrees[3].body_seq();
        lemma_mass_sum_concat(k0, k1);
        lemma_mass_sum_concat(k0 + k1, k2);
        lemma_mass_sum_concat(k0 + k1 + k2, k3);
        lemma_mass_sum_concat(k0 + k1 + k2 + k3, t.bodies);
    } else {
        lemma_mass_sum_nonneg(t.bodies);
    }
}

/// Folding a leaf's bodies accumulates exactly their mass sum, as long as
/// that sum stays representable.
pub proof fn lemma_leaf_fold_total(bodies: Seq<Body>, c: Vec2, m: Scalar)
    requires
        m.v() >= 0,
        forall|i: int| 0 <= i < bodies.len() ==> (#[trigger] bodies[i]).mass.v() > 0,
        m.v() + mass_sum(bodies) <= MAX_RAW as int,
    ensures
        leaf_fold(bodies, c, m).1.v() == m.v() + mass_sum(bodies),
    decreases bodies.len(),
{
    if bodies.len() > 0 {
        lemma_mass_sum_first(bodies);
        let rest = bodies.drop_first();
        assert(forall|i: int| 0 <= i < rest.len() ==> (#[trigger] rest[i]).mass.v() > 0);
        lemma_mass_sum_nonneg(rest);
        let s = leaf_step(c, m, bodies[0]);
        lemma_leaf_fold_total(rest, s.0, s.1);
    }
}

/// After `update_mass`, the total mass of every subtree is the exact sum of
/// the masses of the bodies it holds, and a center of mass is present
/// exactly when the subtree is nonempty.
pub proof fn lemma_um_total(t: QtModel)
    requires
        t.wf(),
        t.clean(),
        t.pos_masses(),
        mass_sum(t.body_seq()) <= MAX_RAW as int,
    ensures
        update_mass_model(t).total_mass.v() == mass_sum(t.body_seq()),
        update_mass_model(t).center_of_mass is Some <==> t.body_seq().len() > 0,
    decreases t,
{
    if t.subtrees.len() == 4 {
        let k0 = t.subtrees[0].body_seq();
        let k1 = t.subtrees[1].body_seq();
        let k2 = t.subtrees[2].body_seq();
        let k3 = t.subtrees[3].body_seq();
        lemma_mass_sum_concat(k0, k1);
        lemma_mass_sum_concat(k0 + k1, k2);
        lemma_mass_sum_concat(k0 + k1 + k2, k3);
        lemma_mass_sum_concat(k0 + k1 + k2 + k3, t.bodies);
        lemma_bs_mass_nonneg(t.subtrees[0]);
        lemma_bs_mass_nonneg(t.subtrees[1]);
        lemma_bs_mass_nonneg(t.subtrees[2]);
        lemma_bs_mass_nonneg(t.subtrees[3]);
        lemma_um_total(t.subtrees[0]);
        lemma_um_total(t.subtrees[1]);
        lemma_um_total(t.subtrees[2]);
        lemma_um_total(t.subtrees[3]);
        assert(t.body_seq() == k0 + k1 + k2 + k3 + t.bodies);
        assert(t.bodies.len() == 0);
        assert(mass_sum(t.bodies) == 0);
        assert((k0 + k1 + k2 + k3 + t.bodies).len() == k0.len() + k1.len() + k2.len() + k3.len());
    } else {
        if t.bodies.len() > 0 {
            lemma_leaf_fold_total(
                t.bodies,
                Vec2 { x: Scalar { raw: 0 }, y: Scalar { raw: 0 } },
                Scalar { raw: 0 },
            );
        }
    }
}

/// Inserting a sequence of bodies preserves the shape invariants and adds
/// exactly those bodies.
pub proof fn lemma_insert_all_props(t: QtModel, s: Seq<Body>)
    requires
        t.wf(),
    ensures
        ({
            let r = insert_all(t, s);
            &&& r.wf()
            &&& r.boundaries == t.boundaries
            &&& r.limit == t.limit
            &&& r.body_seq().to_multiset() =~= t.body_seq().to_multiset().add(s.to_multiset())
            &&& (t.clean() ==> r.clean())
            &&& ((t.pos_masses() && forall|i: int|
                0 <= i < s.len() ==> (#[trigger] s[i]).mass.v() > 0) ==> r.pos_masses())
        }),
    decreases s.len(),
{
    broadcast use vstd::seq_lib::group_to_multiset_ensures;

    if s.len() == 0 {
        assert(s.to_multiset() =~= Multiset::<Body>::empty());
        assert(insert_all(t, s).body_seq().to_multiset() =~= t.body_seq().to_multiset().add(
            s.to_multiset(),
        ));
    } else {
        lemma_insert_props(t, s[0]);
        let t1 = insert_model(t, s[0]);
        let rest = s.drop_first();
        if forall|i: int| 0 <= i < s.len() ==> (#[trigger] s[i]).mass.v() > 0 {
            assert forall|i: int| 0 <= i < rest.len() implies (#[trigger] rest[i]).mass.v() > 0 by {
                assert(rest[i] == s[i + 1]);
            }
        }
        lemma_insert_all_props(t1, rest);
        assert(s.remove(0) =~= rest);
        assert(rest.to_multiset() =~= s.to_multiset().remove(s[0]));
        assert(insert_all(t, s).body_seq().to_multiset() =~= t.body_seq().to_multiset().add(
            s.to_multiset(),
        ));
    }
}

/// Mass conservation: build a tree by inserting any sequence of bodies into
/// a fresh root, then aggregate with `update_mass`; the root's total mass is
/// exactly the sum of the inserted masses.  Together with
/// `lemma_mass_sum_permutation`, the total is the same for any insertion
/// order of the same bodies.
pub proof fn lemma_mass_conservation(boundaries: Rectangle, limit: usize, s: Seq<Body>)
    requires
        boundaries.valid(),
        iabs(width_int(boundaries) - height_int(boundaries)) <= 1,
        forall|i: int| 0 <= i < s.len() ==> (#[trigger] s[i]).mass.v() > 0,
        mass_sum(s) <= MAX_RAW as int,
    ensures
        ({
            let t = insert_all(fresh_model(boundaries, limit), s);
            update_mass_model(t).total_mass.v() == mass_sum(s)
        }),
{
    broadcast use vstd::seq_lib::group_to_multiset_ensures;

    let f = fresh_model(boundaries, limit);
    lemma_fresh_wf(boundaries, limit);
    assert(f.pos_masses());
    lemma_insert_all_props(f, s);
    let t = insert_all(f, s);
    assert(f.body_seq() =~= Seq::<Body>::empty());
    assert(f.body_seq().to_multiset() =~= Multiset::<Body>::empty());
    assert(t.body_seq().to_multiset() =~= s.to_multiset());
    lemma_mass_sum_permutation(t.body_seq(), s);
    lemma_um_total(t);
}

/// Idempotent rebuild: a cleared tree keeps only its boundary and its split
/// threshold, so re-inserting the same bodies always reproduces the same
/// tree, no matter what was built before.
pub proof fn lemma_rebuild_deterministic(t1: QtModel, t2: QtModel, s: Seq<Body>)
    requires
        t1.boundaries == t2.boundaries,
        t1.limit == t2.limit,
    ensures
        insert_all(fresh_model(t1.boundaries, t1.limit), s) == insert_all(
            fresh_model(t2.boundaries, t2.limit),
            s,
        ),
{
}

/// One coordinate of the weighted-centroid combination.
fn combine_axis_exec(pa: Scalar, ma: Scalar, pb: Scalar, mb: Scalar) -> (r: Scalar)
    requires
        ma.v() >= 0,
        mb.v() >= 0,
        ma.v() + mb.v() > 0,
    ensures
        r.v() == combine_axis(pa.v(), ma.v(), pb.v(), mb.v()),
{
    proof {
        lemma_mul_mass_fits(pa.v(), ma.v());
        lemma_mul_mass_fits(pb.v(), mb.v());
    }
    let n: i128 = (pa.raw as i128) * (ma.raw as i128) + (pb.raw as i128) * (mb.raw as i128);
    let d: i128 = (ma.raw as i128) + (mb.raw as i128);
    Scalar { raw: crate::fixed::rdiv_sat_i64(n, d) }
}

/// The four quadrants tile their rectangle: a point lies in the rectangle
/// exactly when it lies in precisely one of the quadrants.
pub proof fn lemma_quadrants_tile(r: Rectangle, p: Vec2)
    requires
        r.valid(),
    ensures
        ({
            let (qa, qb, qc, qd) = r.quadrants_spec();
            &&& r.contains(p) <==> (qa.contains(p) || qb.contains(p) || qc.contains(p)
                || qd.contains(p))
            &&& !(qa.contains(p) && qb.contains(p))
            &&& !(qa.contains(p) && qc.contains(p))
            &&& !(qa.contains(p) && qd.contains(p))
            &&& !(qb.contains(p) && qc.contains(p))
            &&& !(qb.contains(p) && qd.contains(p))
            &&& !(qc.contains(p) && qd.contains(p))
        }),
{
    lemma_midpoint_within(r);
}

} // verus!
