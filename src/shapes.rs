use vstd::prelude::*;
use crate::errors::EnclosingError;
use crate::geometry::{Circle, Point};
use crate::welzl::{resolved, WelzlResolver2D};

verus! {

/// Shapes whose smallest enclosing circle can be asked for.
pub trait EnclosingCircle {
    /// The points of the shape that a circle has to hold.
    spec fn vertices(&self) -> Seq<Point>;

    /// The smallest circle that holds every vertex of the shape.
    fn enclosing(&self) -> (r: Result<Circle, EnclosingError>)
        ensures
            resolved(self.vertices(), self.vertices().len() as usize, r),
    ;

    /// The circle that Welzl's recursion finds with a support of `k` vertices.
    fn enclosing_k(&self, k: usize) -> (r: Result<Circle, EnclosingError>)
        ensures
            resolved(self.vertices(), k, r),
    ;
}

/// A finite collection of points.
pub struct PointSet {
    pub points: Vec<Point>,
}

/// A line segment from `s` to `e`.
#[derive(Debug, Clone, Copy, PartialEq, Eq, Structural)]
pub struct Line {
    pub s: Point,
    pub e: Point,
}

/// A triangle with corners `a`, `b` and `c`.
#[derive(Debug, Clone, Copy, PartialEq, Eq, Structural)]
pub struct Triangle {
    pub a: Point,
    pub b: Point,
    pub c: Point,
}

/// An axis-aligned square with lower-left corner `(x, y)` and side `s`.
#[derive(Debug, Clone, Copy, PartialEq, Eq, Structural)]
pub struct Square {
    pub x: i16,
    pub y: i16,
    pub s: i16,
}

impl Line {
    pub fn new(s: Point, e: Point) -> (r: Line)
        ensures
            r == (Line { s, e }),
    {
        Line { s, e }
    }
}

impl Triangle {
    pub fn new(a: Point, b: Point, c: Point) -> (r: Triangle)
        ensures
            r == (Triangle { a, b, c }),
    {
        Triangle { a, b, c }
    }
}

impl Square {
    /// The square exists only where its corners have `i16` coordinates.
    pub open spec fn wf(self) -> bool {
        &&& 0 <= self.s
        &&& self.x + self.s <= i16::MAX
        &&& self.y + self.s <= i16::MAX
    }

    /// The four corners, counter-clockwise from `(x, y)`.
    pub open spec fn spec_corners(self) -> Seq<Point> {
        seq![
            Point { x: self.x, y: self.y },
            Point { x: (self.x + self.s) as i16, y: self.y },
            Point { x: (self.x + self.s) as i16, y: (self.y + self.s) as i16 },
            Point { x: self.x, y: (self.y + self.s) as i16 },
        ]
    }

    /// The square with lower-left corner `(x, y)` and side `s`, where its
    /// corners have `i16` coordinates.
    pub fn new(x: i16, y: i16, s: i16) -> (r: Option<Square>)
        ensures
            r matches Some(q) ==> q == (Square { x, y, s }) && q.wf(),
            r is None <==> !(Square { x, y, s }).wf(),
    {
        if s >= 0 && x as i32 + s as i32 <= i16::MAX as i32 && y as i32 + s as i32 <= i16::MAX as i32 {
            Some(Square { x, y, s })
        } else {
            None
        }
    }

    /// The four corners, counter-clockwise from `(x, y)`.
    pub fn corners(&self) -> (r: Vec<Point>)
        requires
            self.wf(),
        ensures
            r@ == self.spec_corners(),
    {
        let x1 = self.x + self.s;
        let y1 = self.y + self.s;
        let r = vec![
            Point { x: self.x, y: self.y },
            Point { x: x1, y: self.y },
            Point { x: x1, y: y1 },
            Point { x: self.x, y: y1 },
        ];
        assert(r@ =~= self.spec_corners());
        r
    }

    /// The smallest circle that holds the four corners.
    pub fn enclosing(&self) -> (r: Result<Circle, EnclosingError>)
        requires
            self.wf(),
        ensures
            resolved(self.spec_corners(), 4, r),
    {
        WelzlResolver2D::new(self.corners()).resolve()
    }

    /// The circle that Welzl's recursion finds with a support of `k` corners.
    pub fn enclosing_k(&self, k: usize) -> (r: Result<Circle, EnclosingError>)
        requires
            self.wf(),
        ensures
            resolved(self.spec_corners(), k, r),
    {
        WelzlResolver2D::new(self.corners()).with_smallest_points(k).resolve()
    }
}

impl EnclosingCircle for PointSet {
    open spec fn vertices(&self) -> Seq<Point> {
        self.points@
    }

    fn enclosing(&self) -> (r: Result<Circle, EnclosingError>) {
        WelzlResolver2D::new(self.points.clone()).resolve()
    }

    fn enclosing_k(&self, k: usize) -> (r: Result<Circle, EnclosingError>) {
        WelzlResolver2D::new(self.points.clone()).with_smallest_points(k).resolve()
    }
}

impl EnclosingCircle for Line {
    open spec fn vertices(&self) -> Seq<Point> {
        seq![self.s, self.e]
    }

    fn enclosing(&self) -> (r: Result<Circle, EnclosingError>) {
        let v = vec![self.s, self.e];
        assert(v@ =~= self.vertices());
        WelzlResolver2D::new(v).resolve()
    }

    fn enclosing_k(&self, k: usize) -> (r: Result<Circle, EnclosingError>) {
        let v = vec![self.s, self.e];
        assert(v@ =~= self.vertices());
        WelzlResolver2D::new(v).with_smallest_points(k).resolve()
    }
}

impl EnclosingCircle for Triangle {
    open spec fn vertices(&self) -> Seq<Point> {
        seq![self.a, self.b, self.c]
    }

    fn enclosing(&self) -> (r: Result<Circle, EnclosingError>) {
        let v = vec![self.a, self.b, self.c];
        assert(v@ =~= self.vertices());
        WelzlResolver2D::new(v).resolve()
    }

    fn enclosing_k(&self, k: usize) -> (r: Result<Circle, EnclosingError>) {
        let v = vec![self.a, self.b, self.c];
        assert(v@ =~= self.vertices());
        WelzlResolver2D::new(v).with_smallest_points(k).resolve()
    }
}

} // verus!
