//! Tests of the rectangle operations and the quadtree rebuild cycle.
use barnes_hut::body::Body;
use barnes_hut::fixed::Scalar;
use barnes_hut::quadtree::{Quadtree, Rectangle, A, D};
use barnes_hut::vec2::Vec2;

fn s(units: i64) -> Scalar {
    Scalar::from_int(units)
}

fn v(x: i64, y: i64) -> Vec2 {
    Vec2::new(s(x), s(y))
}

#[test]
fn test_within() {
    let pos: Vec2 = v(100, 100);
    let rec: Rectangle = Rectangle::new(v(50, 50), v(150, 150));
    let rec2: Rectangle = Rectangle::new(v(99, 99), v(101, 101));
    let rec3: Rectangle = Rectangle::new(v(100, 100), v(101, 101));
    assert!(rec.within(pos));
    assert!(rec2.within(pos));
    assert!(rec3.within(pos));
}

#[test]
fn test_not_within() {
    let pos: Vec2 = v(100, 100);
    let rec: Rectangle = Rectangle::new(v(200, 200), v(400, 400));
    let rec2: Rectangle = Rectangle::new(v(50, 200), v(150, 400));
    let rec3: Rectangle = Rectangle::new(v(50, 50), v(150, 65));
    let rec4: Rectangle = Rectangle::new(v(0, 0), v(50, 50));
    assert_eq!(rec.within(pos), false);
    assert_eq!(rec2.within(pos), false);
    assert_eq!(rec3.within(pos), false);
    assert_eq!(rec4.within(pos), false);
}

#[test]
fn rectangle_midpoint() {
    let rec: Rectangle = Rectangle::new(v(200, 200), v(400, 400));
    let rec2: Rectangle = Rectangle::new(v(50, 200), v(150, 400));
    let rec3: Rectangle = Rectangle::new(v(50, 50), v(150, 65));
    let rec4: Rectangle = Rectangle::new(v(0, 0), v(50, 50));
    assert_eq!(rec.midpoint(), v(300, 300));
    assert_eq!(rec2.midpoint(), v(100, 300));
    assert_eq!(rec3.midpoint(), Vec2::new(s(100), Scalar::from_raw(57_500_000)));
    assert_eq!(rec4.midpoint(), v(25, 25));
}

#[test]
fn rectangle_subranges() {
    let rec: Rectangle = Rectangle::new(v(200, 200), v(400, 400));
    let expected_sub: (Rectangle, Rectangle, Rectangle, Rectangle) = (
        Rectangle::new(v(200, 200), v(300, 300)),
        Rectangle::new(v(300, 200), v(400, 300)),
        Rectangle::new(v(200, 300), v(300, 400)),
        Rectangle::new(v(300, 300), v(400, 400)),
    );
    let actual_sub = rec.subranges();
    assert_eq!(expected_sub.0, actual_sub.0);
    assert_eq!(expected_sub.1, actual_sub.1);
    assert_eq!(expected_sub.2, actual_sub.2);
    assert_eq!(expected_sub.3, actual_sub.3);
}

#[test]
fn subtree_index() {
    let rec: Rectangle = Rectangle::new(v(200, 200), v(400, 400));
    let mut qt: Quadtree = Quadtree::new(rec, 5);
    let p1: Vec2 = v(303, 350);
    let p2: Vec2 = v(203, 250);
    qt.split();
    assert_eq!(qt.subtree_index(p1).unwrap_or_default(), D);
    assert_eq!(qt.subtree_index(p2).unwrap_or_default(), A);
}

#[test]
fn split() {
    let rec: Rectangle = Rectangle::new(v(200, 200), v(400, 400));
    let mut qt: Quadtree = Quadtree::new(rec, 5);
    qt.split();
    assert_eq!(qt.subtrees.len(), 4);
}

#[test]
fn insert() {
    let rec: Rectangle = Rectangle::new(v(200, 200), v(400, 400));
    let mut qt: Quadtree = Quadtree::new(rec, 1);
    let body: Body = Body::with_pos(v(250, 250));
    let body2: Body = Body::with_pos(v(210, 230));
    qt.insert(body);
    qt.insert(body2);
    assert_eq!(qt.subtrees.len(), 4);
}

#[test]
fn center_node_mass() {
    let rec: Rectangle = Rectangle::new(v(0, 0), v(400, 400));
    let mut qt: Quadtree = Quadtree::new(rec, 1);
    qt.insert(Body::with_pos(v(1, 1)));
    qt.insert(Body::with_pos(v(10, 10)));
    qt.insert(Body::with_pos(v(100, 20)));
    assert_eq!(qt.subtrees.len(), 4);
    assert_eq!(qt.subtrees[A].boundaries.br, v(200, 200));
    qt.insert(Body::with_pos(v(120, 120)));
    assert_eq!(qt.subtrees[A].subtrees.len(), 4);
    assert_eq!(qt.subtrees[A].subtrees[A].subtrees.len(), 4);
    qt.subtrees[A].update_mass();
    assert_eq!(qt.subtrees[A].center_of_mass.unwrap().x, Scalar::from_raw(57_750_000));
    assert_eq!(qt.subtrees[A].center_of_mass.unwrap().y, Scalar::from_raw(37_750_000));
}

#[test]
fn center_mass() {
    let rec: Rectangle = Rectangle::new(v(0, 0), v(400, 400));
    let mut qt: Quadtree = Quadtree::new(rec, 1);
    let body: Body = Body::with_pos(v(250, 250));
    let body2: Body = Body::with_pos(v(210, 230));
    let body3: Body = Body::with_pos(v(0, 0));
    let body4: Body = Body::with_pos(v(1, 1));
    qt.insert(body);
    qt.insert(body2);
    qt.insert(body3);
    qt.insert(body4);
    qt.update_mass();
    assert_eq!(qt.center_of_mass.unwrap().x, Scalar::from_raw(115_250_000));
    assert_eq!(qt.center_of_mass.unwrap().y, Scalar::from_raw(120_250_000));
}

#[test]
fn center_mass_two() {
    let rec: Rectangle = Rectangle::new(v(0, 0), v(400, 400));
    let mut qt: Quadtree = Quadtree::new(rec, 1);
    qt.bodies = Vec::new();
    qt.subtrees = Vec::new();
    let body5: Body = Body::with_pos(v(1, 1));
    let body6: Body = Body::with_pos(v(2, 2));
    let body7: Body = Body::with_pos(v(3, 3));
    let body8: Body = Body::with_pos(v(4, 4));
    let body9: Body = Body::with_pos(v(100, 100));

    qt.insert(body5);
    qt.insert(body6);
    qt.insert(body7);
    qt.insert(body8);
    qt.insert(body9);
    qt.update_mass();
    assert_eq!(qt.center_of_mass.unwrap().x, s(22));
    assert_eq!(qt.center_of_mass.unwrap().y, s(22));
}

#[test]
fn rectangle_mid() {
    let rec: Rectangle = Rectangle::new(v(0, 0), v(400, 400));
    assert_eq!(rec.width(), s(400));
    assert_eq!(rec.height(), s(400));
    let rec: Rectangle = Rectangle::new(v(200, 200), v(400, 400));
    assert_eq!(rec.width(), s(200));
    assert_eq!(rec.height(), s(200));
    let rec: Rectangle = Rectangle::new(v(32, 98), v(101, 255));
    assert_eq!(rec.width(), s(69));
    assert_eq!(rec.height(), s(157));
}

#[test]
fn clear_quadtree() {
    let rec: Rectangle = Rectangle::new(v(0, 0), v(400, 400));
    let mut qt: Quadtree = Quadtree::new(rec, 1);
    let body3: Body = Body::with_pos(v(0, 0));
    let body4: Body = Body::with_pos(v(150, 150));
    qt.insert(body3);
    qt.insert(body4);
    println!("{:?}", qt.subtrees);
    assert_eq!(qt.subtrees.len(), 4);
    assert_eq!(qt.subtrees[A].subtrees[A].bodies.len(), 1);
    qt.clear();
    assert_eq!(qt.subtrees.len(), 0);
}

#[test]
fn test_non_positive_boundaries() {
    let rec: Rectangle = Rectangle::new(v(-100, -100), v(100, 100));
    let mut qt: Quadtree = Quadtree::new(rec, 1);
    qt.split();
    assert_eq!(qt.subtrees.len(), 4);
}

#[test]
fn total_mass_is_sum_of_inserted_masses() {
    let rec: Rectangle = Rectangle::new(v(0, 0), v(400, 400));
    let mut qt: Quadtree = Quadtree::new(rec, 1);
    qt.insert(Body::with_mass_and_pos(s(10), v(10, 100)));
    qt.insert(Body::with_mass_and_pos(s(20), v(200, 30)));
    qt.insert(Body::with_mass_and_pos(s(7), v(300, 300)));
    qt.update_mass();
    assert_eq!(qt.total_mass, s(37));

    // the same bodies in another order give the same total
    let mut qt2: Quadtree = Quadtree::new(rec, 1);
    qt2.insert(Body::with_mass_and_pos(s(7), v(300, 300)));
    qt2.insert(Body::with_mass_and_pos(s(20), v(200, 30)));
    qt2.insert(Body::with_mass_and_pos(s(10), v(10, 100)));
    qt2.update_mass();
    assert_eq!(qt2.total_mass, s(37));
}

#[test]
fn centroid_of_three_unit_masses() {
    let rec: Rectangle = Rectangle::new(v(0, 0), v(8, 8));
    let mut qt: Quadtree = Quadtree::new(rec, 1);
    qt.insert(Body::with_pos(v(0, 0)));
    qt.insert(Body::with_pos(v(2, 2)));
    qt.insert(Body::with_pos(v(4, 0)));
    qt.update_mass();
    let com = qt.center_of_mass.unwrap();
    assert_eq!(com.x, s(2));
    // two thirds, at the nearest representable millionth
    assert_eq!(com.y, Scalar::from_raw(666_667));
    assert_eq!(qt.total_mass, s(3));
}

#[test]
fn rebuild_reproduces_the_same_tree() {
    let rec: Rectangle = Rectangle::new(v(0, 0), v(400, 400));
    let bodies = [
        Body::with_pos(v(250, 250)),
        Body::with_pos(v(210, 230)),
        Body::with_pos(v(0, 0)),
        Body::with_pos(v(1, 1)),
    ];
    let mut qt: Quadtree = Quadtree::new(rec, 1);
    for b in bodies.iter() {
        qt.insert(*b);
    }
    qt.update_mass();
    let mut qt2: Quadtree = Quadtree::new(rec, 1);
    qt2.insert(Body::with_pos(v(399, 399)));
    qt2.update_mass();
    qt2.clear();
    for b in bodies.iter() {
        qt2.insert(*b);
    }
    qt2.update_mass();
    assert_eq!(qt, qt2);
}

#[test]
fn empty_tree_has_no_center_of_mass() {
    let rec: Rectangle = Rectangle::new(v(0, 0), v(400, 400));
    let mut qt: Quadtree = Quadtree::new(rec, 1);
    qt.update_mass();
    assert!(qt.center_of_mass.is_none());
    assert_eq!(qt.total_mass, Scalar::from_raw(0));
}
