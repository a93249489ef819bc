use vstd::prelude::*;

verus! {

/// A point of the plane with integer coordinates.
#[derive(Debug, Clone, Copy, PartialEq, Eq, Structural)]
pub struct Point {
    pub x: i16,
    pub y: i16,
}

/// A circle held exactly: its center is `(cx / den, cy / den)` and the
/// square of its radius is `r2 / (den * den)`.
#[derive(Debug, Clone, Copy, PartialEq, Eq, Structural)]
pub struct Circle {
    pub cx: i128,
    pub cy: i128,
    pub den: i128,
    pub r2: i128,
}

/// Squared length of the vector `(dx, dy)`.
pub open spec fn norm2(dx: int, dy: int) -> int {
    dx * dx + dy * dy
}

/// Squared distance between two points.
pub open spec fn dist2(a: Point, b: Point) -> int {
    norm2(a.x - b.x, a.y - b.y)
}

/// Twice the signed area of the triangle `a b c`; zero exactly when the
/// three points are collinear.
pub open spec fn cross(a: Point, b: Point, c: Point) -> int {
    (b.x - a.x) * (c.y - a.y) - (b.y - a.y) * (c.x - a.x)
}

impl Circle {
    /// The representation is normalised (positive denominator, non-negative
    /// squared radius) and small enough for exact arithmetic on `i128`.
    pub open spec fn wf(self) -> bool {
        &&& 0 < self.den <= 0x8_0000_0000
        &&& -0x10_0000_0000_0000 <= self.cx <= 0x10_0000_0000_0000
        &&& -0x10_0000_0000_0000 <= self.cy <= 0x10_0000_0000_0000
        &&& 0 <= self.r2 <= 0x1000_0000_0000_0000_0000_0000_0000
    }

    /// Squared distance from `p` to the center, scaled by `den * den`.
    pub open spec fn scaled_dist2(self, p: Point) -> int {
        norm2(p.x * self.den - self.cx, p.y * self.den - self.cy)
    }

    /// `p` lies inside the circle or on it.
    pub open spec fn holds(self, p: Point) -> bool {
        self.scaled_dist2(p) <= self.r2
    }

    /// `p` lies exactly on the circle.
    pub open spec fn on_boundary(self, p: Point) -> bool {
        self.scaled_dist2(p) == self.r2
    }

    /// Every point of `s` lies inside the circle or on it.
    pub open spec fn holds_all(self, s: Seq<Point>) -> bool {
        forall|i: int| 0 <= i < s.len() ==> #[trigger] self.holds(s[i])
    }

    /// The zero-radius circle at `p`.
    pub open spec fn spec_from_1(p: Point) -> Circle {
        Circle { cx: p.x as i128, cy: p.y as i128, den: 1, r2: 0 }
    }

    /// The circle that has the segment `a b` as a diameter.
    pub open spec fn spec_from_2(a: Point, b: Point) -> Circle {
        Circle {
            cx: (a.x + b.x) as i128,
            cy: (a.y + b.y) as i128,
            den: 2,
            r2: dist2(a, b) as i128,
        }
    }

    /// Of two circles with one center, the one with the larger radius.
    pub open spec fn spec_widen(self, p: Point) -> Circle {
        if self.scaled_dist2(p) <= self.r2 {
            self
        } else {
            Circle { r2: self.scaled_dist2(p) as i128, ..self }
        }
    }

    /// For three collinear points: the circle on the longest of the three
    /// segments as diameter, grown if need be to reach the remaining point.
    pub open spec fn spec_collinear(a: Point, b: Point, c: Point) -> Circle {
        if dist2(a, b) >= dist2(b, c) && dist2(a, b) >= dist2(c, a) {
            Circle::spec_from_2(a, b).spec_widen(c)
        } else if dist2(b, c) >= dist2(c, a) {
            Circle::spec_from_2(b, c).spec_widen(a)
        } else {
            Circle::spec_from_2(c, a).spec_widen(b)
        }
    }

    /// The circumscribed circle of a triangle that is not degenerate.
    pub open spec fn spec_circumcircle(a: Point, b: Point, c: Point) -> Circle {
        let (bx, by) = (b.x - a.x, b.y - a.y);
        let (qx, qy) = (c.x - a.x, c.y - a.y);
        let nb = norm2(bx, by);
        let nc = norm2(qx, qy);
        let d = 2 * cross(a, b, c);
        let ux = qy * nb - by * nc;
        let uy = bx * nc - qx * nb;
        let s = if d < 0 { -1int } else { 1int };
        Circle {
            cx: (s * (a.x * d + ux)) as i128,
            cy: (s * (a.y * d + uy)) as i128,
            den: (s * d) as i128,
            r2: norm2(ux, uy) as i128,
        }
    }

    /// The circle through three points; for collinear points, see
    /// `spec_collinear`.
    pub open spec fn spec_from_3(a: Point, b: Point, c: Point) -> Circle {
        if cross(a, b, c) == 0 {
            Circle::spec_collinear(a, b, c)
        } else {
            Circle::spec_circumcircle(a, b, c)
        }
    }
}


impl Circle {
    /// `(bx, by) . (ux, uy)` for the circumcenter offset `(ux, uy)`.
    proof fn lemma_dot(bx: int, by: int, qx: int, qy: int, nb: int, nc: int, cr: int, ux: int, uy: int)
        requires
            ux == qy * nb - by * nc,
            uy == bx * nc - qx * nb,
            cr == bx * qy - by * qx,
        ensures
            bx * ux + by * uy == nb * cr,
    {
        assert(bx * ux == bx * qy * nb - bx * by * nc) by (nonlinear_arith)
            requires ux == qy * nb - by * nc;
        assert(by * uy == by * bx * nc - by * qx * nb) by (nonlinear_arith)
            requires uy == bx * nc - qx * nb;
        assert(bx * by * nc == by * bx * nc) by (nonlinear_arith);
        assert(nb * cr == bx * qy * nb - by * qx * nb) by (nonlinear_arith)
            requires cr == bx * qy - by * qx;
    }

    /// `(qx, qy) . (ux, uy)` for the circumcenter offset `(ux, uy)`.
    proof fn lemma_dot_other(bx: int, by: int, qx: int, qy: int, nb: int, nc: int, cr: int, ux: int, uy: int)
        requires
            ux == qy * nb - by * nc,
            uy == bx * nc - qx * nb,
            cr == bx * qy - by * qx,
        ensures
            qx * ux + qy * uy == nc * cr,
    {
        assert(qx * ux == qx * qy * nb - qx * by * nc) by (nonlinear_arith)
            requires ux == qy * nb - by * nc;
        assert(qy * uy == qy * bx * nc - qy * qx * nb) by (nonlinear_arith)
            requires uy == bx * nc - qx * nb;
        assert(qx * qy * nb == qy * qx * nb) by (nonlinear_arith);
        assert(nc * cr == qy * bx * nc - qx * by * nc) by (nonlinear_arith)
            requires cr == bx * qy - by * qx;
    }

    /// A well-formed circle keeps scaled squared distances within `i128`.
    proof fn lemma_scaled_bound(self, p: Point)
        requires
            self.wf(),
        ensures
            0 <= self.scaled_dist2(p) <= 0x800_0000_0000_0000_0000_0000_0000,
    {
        lemma_mul_le(p.x as int, self.den as int, 0x8000, 0x8_0000_0000);
        lemma_mul_le(p.y as int, self.den as int, 0x8000, 0x8_0000_0000);
        let dx = p.x * self.den - self.cx;
        let dy = p.y * self.den - self.cy;
        lemma_mul_le(dx, dx, 0x20_0000_0000_0000, 0x20_0000_0000_0000);
        lemma_mul_le(dy, dy, 0x20_0000_0000_0000, 0x20_0000_0000_0000);
        assert(0 <= dx * dx) by (nonlinear_arith);
        assert(0 <= dy * dy) by (nonlinear_arith);
    }

    /// Sizes of the terms of the circumcircle, which keep its casts exact.
    proof fn lemma_circum_bounds(a: Point, b: Point, c: Point)
        ensures
            ({
                let (bx, by) = (b.x - a.x, b.y - a.y);
                let (qx, qy) = (c.x - a.x, c.y - a.y);
                let nb = norm2(bx, by);
                let nc = norm2(qx, qy);
                let d = 2 * cross(a, b, c);
                let ux = qy * nb - by * nc;
                let uy = bx * nc - qx * nb;
                &&& -0x4_0000_0000 <= d <= 0x4_0000_0000
                &&& -0x4_0000_0000_0000 <= ux <= 0x4_0000_0000_0000
                &&& -0x4_0000_0000_0000 <= uy <= 0x4_0000_0000_0000
                &&& -0x2_0000_0000_0000 <= a.x * d <= 0x2_0000_0000_0000
                &&& -0x2_0000_0000_0000 <= a.y * d <= 0x2_0000_0000_0000
                &&& 0 <= norm2(ux, uy) <= 0x20_0000_0000_0000_0000_0000_0000
                &&& 0 <= ux * ux && 0 <= uy * uy
            }),
    {
        let (bx, by) = (b.x - a.x, b.y - a.y);
        let (qx, qy) = (c.x - a.x, c.y - a.y);
        lemma_mul_le(bx, bx, 0x10000, 0x10000);
        lemma_mul_le(by, by, 0x10000, 0x10000);
        lemma_mul_le(qx, qx, 0x10000, 0x10000);
        lemma_mul_le(qy, qy, 0x10000, 0x10000);
        lemma_mul_le(bx, qy, 0x10000, 0x10000);
        lemma_mul_le(by, qx, 0x10000, 0x10000);
        assert(0 <= bx * bx && 0 <= by * by && 0 <= qx * qx && 0 <= qy * qy) by (nonlinear_arith);
        let nb = norm2(bx, by);
        let nc = norm2(qx, qy);
        let d = 2 * cross(a, b, c);
        lemma_mul_le(qy, nb, 0x10000, 0x2_0000_0000);
        lemma_mul_le(by, nc, 0x10000, 0x2_0000_0000);
        lemma_mul_le(bx, nc, 0x10000, 0x2_0000_0000);
        lemma_mul_le(qx, nb, 0x10000, 0x2_0000_0000);
        lemma_mul_le(a.x as int, d, 0x8000, 0x4_0000_0000);
        lemma_mul_le(a.y as int, d, 0x8000, 0x4_0000_0000);
        let ux = qy * nb - by * nc;
        let uy = bx * nc - qx * nb;
        lemma_mul_le(ux, ux, 0x4_0000_0000_0000, 0x4_0000_0000_0000);
        lemma_mul_le(uy, uy, 0x4_0000_0000_0000, 0x4_0000_0000_0000);
        assert(0 <= ux * ux && 0 <= uy * uy) by (nonlinear_arith);
    }

    /// The fields of the circumcircle, by the sign of the denominator.
    proof fn lemma_circum_fields(a: Point, b: Point, c: Point)
        ensures
            ({
                let r = Circle::spec_circumcircle(a, b, c);
                let nb = norm2(b.x - a.x, b.y - a.y);
                let nc = norm2(c.x - a.x, c.y - a.y);
                let d = 2 * cross(a, b, c);
                let ux = (c.y - a.y) * nb - (b.y - a.y) * nc;
                let uy = (b.x - a.x) * nc - (c.x - a.x) * nb;
                &&& d < 0 ==> r.den == -d && r.cx == -(a.x * d + ux) && r.cy == -(a.y * d + uy)
                &&& d >= 0 ==> r.den == d && r.cx == a.x * d + ux && r.cy == a.y * d + uy
                &&& r.r2 == norm2(ux, uy)
            }),
    {
        Circle::lemma_circum_bounds(a, b, c);
        let r = Circle::spec_circumcircle(a, b, c);
        let nb = norm2(b.x - a.x, b.y - a.y);
        let nc = norm2(c.x - a.x, c.y - a.y);
        let d = 2 * cross(a, b, c);
        let ux = (c.y - a.y) * nb - (b.y - a.y) * nc;
        let uy = (b.x - a.x) * nc - (c.x - a.x) * nb;
        let s = if d < 0 { -1int } else { 1int };
        assert(r.den == s * d && r.cx == s * (a.x * d + ux) && r.cy == s * (a.y * d + uy));
        if d < 0 {
            assert(s == -1);
            assert(r.den == -d);
            assert(r.cx == -(a.x * d + ux));
            assert(r.cy == -(a.y * d + uy));
        } else {
            assert(s == 1);
            assert(r.den == d);
            assert(r.cx == a.x * d + ux);
            assert(r.cy == a.y * d + uy);
        }
    }

    /// Growing a circle to reach a point keeps every point it held.
    pub proof fn lemma_widen_mono(self, p: Point, q: Point)
        requires
            self.wf(),
            self.holds(q),
        ensures
            self.spec_widen(p).holds(q),
            self.spec_widen(p).cx == self.cx,
            self.spec_widen(p).cy == self.cy,
            self.spec_widen(p).den == self.den,
    {
        self.lemma_scaled_bound(p);
    }

    /// The circle on a diameter is well formed and passes through both ends.
    pub proof fn lemma_from_2(a: Point, b: Point)
        ensures
            Circle::spec_from_2(a, b).wf(),
            Circle::spec_from_2(a, b).r2 == dist2(a, b),
            Circle::spec_from_2(a, b).on_boundary(a),
            Circle::spec_from_2(a, b).on_boundary(b),
    {
        let dx = a.x - b.x;
        let dy = a.y - b.y;
        lemma_mul_le(dx, dx, 0x10000, 0x10000);
        lemma_mul_le(dy, dy, 0x10000, 0x10000);
        assert(0 <= dx * dx && 0 <= dy * dy) by (nonlinear_arith);
        assert(a.x * 2 - (a.x + b.x) == dx);
        assert(a.y * 2 - (a.y + b.y) == dy);
        assert(b.x * 2 - (a.x + b.x) == -dx);
        assert(b.y * 2 - (a.y + b.y) == -dy);
        assert((-dx) * (-dx) == dx * dx) by (nonlinear_arith);
        assert((-dy) * (-dy) == dy * dy) by (nonlinear_arith);
    }

    /// Growing a circle leaves it as it was, or puts `p` on it.
    pub proof fn lemma_widen_touches(self, p: Point)
        requires
            self.wf(),
        ensures
            self.spec_widen(p).wf(),
            self.spec_widen(p) == self || self.spec_widen(p).on_boundary(p),
    {
        self.lemma_scaled_bound(p);
    }

    /// The circle through three points passes through at least one of them.
    pub proof fn lemma_from_3_on_boundary(a: Point, b: Point, c: Point)
        ensures
            Circle::spec_from_3(a, b, c).on_boundary(a) || Circle::spec_from_3(a, b, c).on_boundary(b)
                || Circle::spec_from_3(a, b, c).on_boundary(c),
    {
        if cross(a, b, c) != 0 {
            Circle::lemma_circumcircle(a, b, c);
        } else {
            Circle::lemma_from_2(a, b);
            Circle::lemma_from_2(b, c);
            Circle::lemma_from_2(c, a);
            Circle::spec_from_2(a, b).lemma_widen_touches(c);
            Circle::spec_from_2(b, c).lemma_widen_touches(a);
            Circle::spec_from_2(c, a).lemma_widen_touches(b);
        }
    }

    /// The circumcircle passes through the three corners.
    proof fn lemma_circumcircle(a: Point, b: Point, c: Point)
        requires
            cross(a, b, c) != 0,
        ensures
            Circle::spec_circumcircle(a, b, c).on_boundary(a),
            Circle::spec_circumcircle(a, b, c).on_boundary(b),
            Circle::spec_circumcircle(a, b, c).on_boundary(c),
    {
        let r = Circle::spec_circumcircle(a, b, c);
        let (bx, by) = (b.x - a.x, b.y - a.y);
        let (qx, qy) = (c.x - a.x, c.y - a.y);
        let nb = norm2(bx, by);
        let nc = norm2(qx, qy);
        let cr = cross(a, b, c);
        let d = 2 * cr;
        let ux = qy * nb - by * nc;
        let uy = bx * nc - qx * nb;
        let s = if d < 0 { -1int } else { 1int };
        Circle::lemma_circum_fields(a, b, c);
        assert(r.den == s * d && r.cx == s * (a.x * d + ux) && r.cy == s * (a.y * d + uy));
        assert(r.r2 == ux * ux + uy * uy);
        assert(cr == bx * qy - by * qx);
        Circle::lemma_dot(bx, by, qx, qy, nb, nc, cr, ux, uy);
        Circle::lemma_dot_other(bx, by, qx, qy, nb, nc, cr, ux, uy);
        assert(2 * (nb * cr) == nb * d && 2 * (nc * cr) == nc * d) by (nonlinear_arith)
            requires d == 2 * cr;
        Circle::lemma_corner(a.x as int, a.y as int, a.x as int, a.y as int, 0, 0, 0, d, s, ux, uy);
        Circle::lemma_corner(a.x as int, a.y as int, b.x as int, b.y as int, bx, by, nb, d, s, ux, uy);
        Circle::lemma_corner(a.x as int, a.y as int, c.x as int, c.y as int, qx, qy, nc, d, s, ux, uy);
    }

    /// One corner of the circumcircle: `p = a + (vx, vy)` lies on it.
    proof fn lemma_corner(ax: int, ay: int, px: int, py: int, vx: int, vy: int, nv: int, d: int, s: int, ux: int, uy: int)
        requires
            px == ax + vx,
            py == ay + vy,
            nv == vx * vx + vy * vy,
            2 * (vx * ux + vy * uy) == nv * d,
            s == 1 || s == -1,
        ensures
            norm2(px * (s * d) - s * (ax * d + ux), py * (s * d) - s * (ay * d + uy)) == ux * ux + uy * uy,
    {
        let x = vx * d - ux;
        let y = vy * d - uy;
        assert(px * (s * d) - s * (ax * d + ux) == s * x) by (nonlinear_arith)
            requires px == ax + vx, x == vx * d - ux;
        assert(py * (s * d) - s * (ay * d + uy) == s * y) by (nonlinear_arith)
            requires py == ay + vy, y == vy * d - uy;
        assert((s * x) * (s * x) == x * x) by (nonlinear_arith) requires s == 1 || s == -1;
        assert((s * y) * (s * y) == y * y) by (nonlinear_arith) requires s == 1 || s == -1;
        assert(x * x == vx * vx * (d * d) - 2 * d * (vx * ux) + ux * ux) by (nonlinear_arith)
            requires x == vx * d - ux;
        assert(y * y == vy * vy * (d * d) - 2 * d * (vy * uy) + uy * uy) by (nonlinear_arith)
            requires y == vy * d - uy;
        assert(vx * vx * (d * d) + vy * vy * (d * d) == nv * (d * d)) by (nonlinear_arith)
            requires nv == vx * vx + vy * vy;
        assert(2 * d * (vx * ux) + 2 * d * (vy * uy) == d * (2 * (vx * ux + vy * uy))) by (nonlinear_arith);
        assert(d * (nv * d) == nv * (d * d)) by (nonlinear_arith);
    }
}

/// Bounds on the products that the exact arithmetic forms.
proof fn lemma_mul_le(a: int, b: int, ba: int, bb: int)
    requires
        -ba <= a <= ba,
        -bb <= b <= bb,
    ensures
        -(ba * bb) <= a * b <= ba * bb,
{
    assert(-(ba * bb) <= a * b <= ba * bb) by (nonlinear_arith)
        requires
            -ba <= a <= ba,
            -bb <= b <= bb,
    ;
}

/// Scaled squared distance from a point to the center of a well-formed circle.
fn scaled_dist2(c: &Circle, p: &Point) -> (r: i128)
    requires
        c.wf(),
    ensures
        r == c.scaled_dist2(*p),
        0 <= r <= 0x800_0000_0000_0000_0000_0000_0000,
{
    proof {
        lemma_mul_le(p.x as int, c.den as int, 0x8000, 0x8_0000_0000);
        lemma_mul_le(p.y as int, c.den as int, 0x8000, 0x8_0000_0000);
        c.lemma_scaled_bound(*p);
    }
    let dx: i128 = p.x as i128 * c.den - c.cx;
    let dy: i128 = p.y as i128 * c.den - c.cy;
    proof {
        lemma_mul_le(dx as int, dx as int, 0x20_0000_0000_0000, 0x20_0000_0000_0000);
        lemma_mul_le(dy as int, dy as int, 0x20_0000_0000_0000, 0x20_0000_0000_0000);
        assert(0 <= dx * dx) by (nonlinear_arith);
        assert(0 <= dy * dy) by (nonlinear_arith);
    }
    dx * dx + dy * dy
}

impl Circle {
    /// Whether `p` lies inside the circle or on it.
    pub fn contains(&self, p: &Point) -> (r: bool)
        requires
            self.wf(),
        ensures
            r == self.holds(*p),
    {
        scaled_dist2(self, p) <= self.r2
    }

    /// The zero-radius circle at `p`.
    pub fn from_1_points(p: &Point) -> (r: Circle)
        ensures
            r == Circle::spec_from_1(*p),
            r.wf(),
            r.on_boundary(*p),
    {
        let r = Circle { cx: p.x as i128, cy: p.y as i128, den: 1, r2: 0 };
        assert(p.x * 1 - p.x == 0 && p.y * 1 - p.y == 0);
        r
    }

    /// The circle that has the segment `a b` as a diameter.
    pub fn from_2_points(a: &Point, b: &Point) -> (r: Circle)
        ensures
            r == Circle::spec_from_2(*a, *b),
            r.r2 == dist2(*a, *b),
            r.wf(),
            r.on_boundary(*a),
            r.on_boundary(*b),
    {
        let dx: i128 = a.x as i128 - b.x as i128;
        let dy: i128 = a.y as i128 - b.y as i128;
        proof {
            lemma_mul_le(dx as int, dx as int, 0x10000, 0x10000);
            lemma_mul_le(dy as int, dy as int, 0x10000, 0x10000);
            assert(0 <= dx * dx) by (nonlinear_arith);
            assert(0 <= dy * dy) by (nonlinear_arith);
        }
        proof { Circle::lemma_from_2(*a, *b); }
        Circle { cx: a.x as i128 + b.x as i128, cy: a.y as i128 + b.y as i128, den: 2, r2: dx * dx + dy * dy }
    }

    /// The same circle, with its radius grown if need be to reach `p`.
    pub fn widen(&self, p: &Point) -> (r: Circle)
        requires
            self.wf(),
        ensures
            r == self.spec_widen(*p),
            r.wf(),
            r.holds(*p),
    {
        let d = scaled_dist2(self, p);
        if d <= self.r2 {
            *self
        } else {
            Circle { r2: d, ..*self }
        }
    }

    /// The circle through three points. Collinear points have no such
    /// circle: for them the circle on the longest of the three segments as
    /// diameter is taken, grown if need be to hold the third point.
    pub fn from_3_points(a: &Point, b: &Point, c: &Point) -> (r: Circle)
        ensures
            r == Circle::spec_from_3(*a, *b, *c),
            r.wf(),
            r.holds(*a),
            r.holds(*b),
            r.holds(*c),
            cross(*a, *b, *c) != 0 ==> r.on_boundary(*a) && r.on_boundary(*b) && r.on_boundary(*c),
            r.on_boundary(*a) || r.on_boundary(*b) || r.on_boundary(*c),
    {
        proof { Circle::lemma_from_3_on_boundary(*a, *b, *c); }
        let bx: i128 = b.x as i128 - a.x as i128;
        let by: i128 = b.y as i128 - a.y as i128;
        let qx: i128 = c.x as i128 - a.x as i128;
        let qy: i128 = c.y as i128 - a.y as i128;
        proof {
            lemma_mul_le(bx as int, bx as int, 0x10000, 0x10000);
            lemma_mul_le(by as int, by as int, 0x10000, 0x10000);
            lemma_mul_le(qx as int, qx as int, 0x10000, 0x10000);
            lemma_mul_le(qy as int, qy as int, 0x10000, 0x10000);
            lemma_mul_le(bx as int, qy as int, 0x10000, 0x10000);
            lemma_mul_le(by as int, qx as int, 0x10000, 0x10000);
            assert(0 <= bx * bx && 0 <= by * by && 0 <= qx * qx && 0 <= qy * qy) by (nonlinear_arith);
        }
        let cr: i128 = bx * qy - by * qx;
        assert(cr == cross(*a, *b, *c));
        if cr == 0 {
            let dab = Circle::from_2_points(a, b);
            let dbc = Circle::from_2_points(b, c);
            let dca = Circle::from_2_points(c, a);
            if dab.r2 >= dbc.r2 && dab.r2 >= dca.r2 {
                let r = dab.widen(c);
                proof {
                    dab.lemma_widen_mono(*c, *a);
                    dab.lemma_widen_mono(*c, *b);
                }
                r
            } else if dbc.r2 >= dca.r2 {
                let r = dbc.widen(a);
                proof {
                    dbc.lemma_widen_mono(*a, *b);
                    dbc.lemma_widen_mono(*a, *c);
                }
                r
            } else {
                let r = dca.widen(b);
                proof {
                    dca.lemma_widen_mono(*b, *c);
                    dca.lemma_widen_mono(*b, *a);
                }
                r
            }
        } else {
            let nb: i128 = bx * bx + by * by;
            let nc: i128 = qx * qx + qy * qy;
            let d: i128 = 2 * cr;
            proof {
                lemma_mul_le(qy as int, nb as int, 0x10000, 0x2_0000_0000);
                lemma_mul_le(by as int, nc as int, 0x10000, 0x2_0000_0000);
                lemma_mul_le(bx as int, nc as int, 0x10000, 0x2_0000_0000);
                lemma_mul_le(qx as int, nb as int, 0x10000, 0x2_0000_0000);
                lemma_mul_le(a.x as int, d as int, 0x8000, 0x4_0000_0000);
                lemma_mul_le(a.y as int, d as int, 0x8000, 0x4_0000_0000);
            }
            let ux: i128 = qy * nb - by * nc;
            let uy: i128 = bx * nc - qx * nb;
            assert(nb == norm2(b.x - a.x, b.y - a.y) && nc == norm2(c.x - a.x, c.y - a.y));
            assert(ux == (c.y - a.y) * norm2(b.x - a.x, b.y - a.y) - (b.y - a.y) * norm2(c.x - a.x, c.y - a.y));
            assert(uy == (b.x - a.x) * norm2(c.x - a.x, c.y - a.y) - (c.x - a.x) * norm2(b.x - a.x, b.y - a.y));
            proof { Circle::lemma_circum_bounds(*a, *b, *c); }
            let ex: i128 = a.x as i128 * d + ux;
            let ey: i128 = a.y as i128 * d + uy;
            let r = if d < 0 {
                let r = Circle { cx: -ex, cy: -ey, den: -d, r2: ux * ux + uy * uy };
                proof { Circle::lemma_circum_fields(*a, *b, *c); }
                r
            } else {
                let r = Circle { cx: ex, cy: ey, den: d, r2: ux * ux + uy * uy };
                proof { Circle::lemma_circum_fields(*a, *b, *c); }
                r
            };
            proof {
                Circle::lemma_circumcircle(*a, *b, *c);
            }
            r
        }
    }
}

} // verus!
