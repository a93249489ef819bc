use smallest_enclosing_ball::{
    Circle, EnclosingCircle, EnclosingError, Line, Point, PointSet, Square, Triangle, WelzlResolver2D,
};

fn pt(x: i16, y: i16) -> Point {
    Point { x, y }
}

/// The circle has center `(nx / d, ny / d)` and squared radius `r2n / r2d`.
fn is_circle(c: &Circle, nx: i128, ny: i128, d: i128, r2n: i128, r2d: i128) -> bool {
    c.cx * d == nx * c.den && c.cy * d == ny * c.den && c.r2 * r2d == r2n * c.den * c.den
}

#[test]
fn ready() {
    println!("it works!")
}

#[test]
fn point2() {
    let disk = Line::new(pt(0, 0), pt(1, 1)).enclosing().unwrap();
    assert!(is_circle(&disk, 1, 1, 2, 1, 2));
    let disk = Line::new(pt(0, 0), pt(0, 0)).enclosing().unwrap();
    assert!(is_circle(&disk, 0, 0, 1, 0, 1));
}

#[test]
fn point3() {
    let disk = Triangle::new(pt(0, 0), pt(1, 0), pt(0, 1)).enclosing().unwrap();
    assert!(is_circle(&disk, 1, 1, 2, 1, 2));
    let disk = Triangle::new(pt(0, 0), pt(0, 0), pt(0, 0)).enclosing().unwrap();
    assert!(is_circle(&disk, 0, 0, 1, 0, 1));
}

#[test]
fn four_points_with_one_inside() {
    let set = PointSet { points: vec![pt(0, 0), pt(2, 0), pt(1, 1), pt(0, 2)] };
    let c = set.enclosing().unwrap();
    assert!(is_circle(&c, 1, 1, 1, 2, 1));
}

#[test]
fn result_does_not_depend_on_order() {
    let orders = [
        vec![pt(0, 0), pt(2, 0), pt(1, 1), pt(0, 2)],
        vec![pt(0, 2), pt(1, 1), pt(2, 0), pt(0, 0)],
        vec![pt(1, 1), pt(0, 0), pt(0, 2), pt(2, 0)],
        vec![pt(2, 0), pt(0, 2), pt(0, 0), pt(1, 1)],
    ];
    for points in orders.iter() {
        let c = PointSet { points: points.clone() }.enclosing().unwrap();
        assert!(is_circle(&c, 1, 1, 1, 2, 1));
    }
}

#[test]
fn same_input_twice_gives_same_circle() {
    let set = PointSet { points: vec![pt(3, 1), pt(-2, 4), pt(0, -5), pt(7, 2), pt(1, 1)] };
    assert_eq!(set.enclosing().unwrap(), set.enclosing().unwrap());
}

#[test]
fn single_point_has_radius_zero() {
    let c = PointSet { points: vec![pt(5, -3)] }.enclosing().unwrap();
    assert!(is_circle(&c, 5, -3, 1, 0, 1));
}

#[test]
fn degenerate_segment() {
    let c = Line::new(pt(0, 0), pt(0, 0)).enclosing().unwrap();
    assert_eq!(c.r2, 0);
    assert_eq!(c.cx, 0);
    assert_eq!(c.cy, 0);
}

#[test]
fn right_triangle_uses_hypotenuse() {
    let c = Triangle::new(pt(0, 0), pt(2, 0), pt(0, 2)).enclosing().unwrap();
    assert!(is_circle(&c, 1, 1, 1, 2, 1));
}

#[test]
fn obtuse_triangle_uses_longest_side() {
    let c = Triangle::new(pt(0, 0), pt(4, 0), pt(1, 1)).enclosing().unwrap();
    assert!(is_circle(&c, 2, 0, 1, 4, 1));
}

#[test]
fn acute_triangle_uses_circumcircle() {
    let c = Triangle::new(pt(0, 0), pt(4, 0), pt(2, 3)).enclosing().unwrap();
    assert!(is_circle(&c, 12, 5, 6, 169, 36));
}

#[test]
fn too_few_points_for_k() {
    let set = PointSet { points: vec![pt(0, 0), pt(1, 0)] };
    assert_eq!(set.enclosing_k(3), Err(EnclosingError::Insufficient { require: 3, points: 2 }));
    let line = Line::new(pt(0, 0), pt(1, 0));
    assert_eq!(line.enclosing_k(5), Err(EnclosingError::Insufficient { require: 5, points: 2 }));
}

#[test]
fn empty_set_and_empty_support_fail() {
    let empty = PointSet { points: vec![] };
    assert_eq!(empty.enclosing(), Err(EnclosingError::Insufficient { require: 1, points: 0 }));
    let set = PointSet { points: vec![pt(0, 0)] };
    assert_eq!(set.enclosing_k(0), Err(EnclosingError::Insufficient { require: 1, points: 0 }));
}

#[test]
fn resolver_builder() {
    let r = WelzlResolver2D::new(vec![pt(0, 0), pt(6, 0), pt(3, 1)]).with_smallest_points(3).resolve();
    let c = r.unwrap();
    assert!(is_circle(&c, 3, 0, 1, 9, 1));
}

#[test]
fn square_corners() {
    let sq = Square::new(0, 0, 2).unwrap();
    let c = sq.enclosing().unwrap();
    assert!(is_circle(&c, 1, 1, 1, 2, 1));
    assert!(Square::new(32000, 0, 1000).is_none());
    assert!(Square::new(0, 0, -1).is_none());
}

#[test]
fn enclosing_holds_every_point() {
    let points = vec![
        pt(10, 3), pt(-7, 12), pt(4, -9), pt(0, 0), pt(15, 15), pt(-12, -3), pt(8, 8), pt(-1, 20),
    ];
    let c = PointSet { points: points.clone() }.enclosing().unwrap();
    for p in points.iter() {
        assert!(c.contains(p));
    }
    let smaller = Circle { r2: c.r2 - 1, ..c };
    assert!(points.iter().any(|p| !smaller.contains(p)));
}

#[test]
fn three_point_constructor() {
    let c = Circle::from_3_points(&pt(0, 0), &pt(4, 0), &pt(2, 3));
    assert!(is_circle(&c, 12, 5, 6, 169, 36));
    let collinear = Circle::from_3_points(&pt(0, 0), &pt(1, 0), &pt(3, 0));
    assert!(is_circle(&collinear, 3, 0, 2, 9, 4));
    assert!(collinear.contains(&pt(1, 0)));
}

#[test]
fn two_point_constructor_and_contains() {
    let c = Circle::from_2_points(&pt(-2, 0), &pt(2, 0));
    assert!(is_circle(&c, 0, 0, 1, 4, 1));
    assert!(c.contains(&pt(0, 2)));
    assert!(!c.contains(&pt(2, 1)));
    let one = Circle::from_1_points(&pt(3, 4));
    assert!(one.contains(&pt(3, 4)));
    assert!(!one.contains(&pt(3, 5)));
    let wide = one.widen(&pt(3, 6));
    assert!(is_circle(&wide, 3, 4, 1, 4, 1));
}

#[test]
fn support_of_one_point_has_radius_zero() {
    let points = vec![pt(3, 1), pt(-2, 4), pt(0, -5), pt(7, 2)];
    let c = PointSet { points: points.clone() }.enclosing_k(1).unwrap();
    assert_eq!(c.r2, 0);
    assert!(points.iter().any(|p| is_circle(&c, p.x as i128, p.y as i128, 1, 0, 1)));
}

#[test]
fn support_of_all_points_matches_enclosing() {
    let set = PointSet { points: vec![pt(3, 1), pt(-2, 4), pt(0, -5), pt(7, 2), pt(1, 1)] };
    assert_eq!(set.enclosing_k(5), set.enclosing());
}

#[test]
fn unit_square() {
    let c = Square::new(0, 0, 1).unwrap().enclosing().unwrap();
    assert!(is_circle(&c, 1, 1, 2, 1, 2));
    let c4 = Square::new(0, 0, 1).unwrap().enclosing_k(4).unwrap();
    assert_eq!(c, c4);
}

#[test]
fn inner_point_keeps_the_circle() {
    let base = vec![pt(0, 0), pt(2, 0), pt(0, 2), pt(2, 2)];
    let c = PointSet { points: base.clone() }.enclosing().unwrap();
    let mut more = base.clone();
    more.push(pt(1, 1));
    more.push(pt(2, 2));
    let c2 = PointSet { points: more }.enclosing().unwrap();
    assert!(is_circle(&c, 1, 1, 1, 2, 1));
    assert!(is_circle(&c2, 1, 1, 1, 2, 1));
}
