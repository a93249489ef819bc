use vstd::prelude::*;
use crate::errors::EnclosingError;
use crate::geometry::{dist2, Circle, Point};

verus! {

/// Some point of `s` lies exactly on the circle.
pub open spec fn touches(c: Circle, s: Seq<Point>) -> bool {
    exists|t: int| 0 <= t < s.len() && #[trigger] c.on_boundary(s[t])
}

/// Innermost pass of the sweep: each of `b[k..j]` left outside makes the
/// circle the one through `b[i]`, `b[j]` and it.
pub open spec fn sweep_k(c: Circle, b: Seq<Point>, i: int, j: int, k: int) -> Circle
    decreases j - k,
{
    if k >= j {
        c
    } else {
        let c2 = if c.holds(b[k]) { c } else { Circle::spec_from_3(b[i], b[j], b[k]) };
        sweep_k(c2, b, i, j, k + 1)
    }
}

/// Middle pass of the sweep: each of `b[j..i]` left outside makes the
/// circle the one on `b[i]` and it, then runs the innermost pass.
pub open spec fn sweep_j(c: Circle, b: Seq<Point>, i: int, j: int) -> Circle
    decreases i - j,
{
    if j >= i {
        c
    } else {
        let c2 = if c.holds(b[j]) {
            c
        } else {
            sweep_k(Circle::spec_from_2(b[i], b[j]), b, i, j, 0)
        };
        sweep_j(c2, b, i, j + 1)
    }
}

/// Outer pass of the sweep: each of `b[i..]` left outside makes the circle
/// the one on `b[0]` and it, then runs the middle pass.
pub open spec fn sweep_i(c: Circle, b: Seq<Point>, i: int) -> Circle
    decreases b.len() - i,
{
    if i >= b.len() {
        c
    } else {
        let c2 = if c.holds(b[i]) {
            c
        } else {
            sweep_j(Circle::spec_from_2(b[0], b[i]), b, i, 1)
        };
        sweep_i(c2, b, i + 1)
    }
}

/// The circle grown in turn to reach each of `b[m..]`.
pub open spec fn widen_all(c: Circle, b: Seq<Point>, m: int) -> Circle
    decreases b.len() - m,
{
    if m >= b.len() {
        c
    } else {
        widen_all(c.spec_widen(b[m]), b, m + 1)
    }
}

/// The closure of a support set of four or more points: the static sweep
/// of Welzl's case analysis, started from the circle on `b[0]` and `b[1]`,
/// then grown over any point it left outside.
pub open spec fn sweep_spec(b: Seq<Point>) -> Circle {
    widen_all(sweep_i(Circle::spec_from_2(b[0], b[1]), b, 2), b, 0)
}

/// The circle that a support set determines: none for an empty set, the
/// circle through its points for up to three, the closure for more.
pub open spec fn support_circle(b: Seq<Point>) -> Option<Circle> {
    if b.len() == 0 {
        None
    } else if b.len() == 1 {
        Some(Circle::spec_from_1(b[0]))
    } else if b.len() == 2 {
        Some(Circle::spec_from_2(b[0], b[1]))
    } else if b.len() == 3 {
        Some(Circle::spec_from_3(b[0], b[1], b[2]))
    } else {
        Some(sweep_spec(b))
    }
}

/// `p` lies in the circle; the empty circle holds no point.
pub open spec fn covers(c: Option<Circle>, p: Point) -> bool {
    match c {
        Some(c) => c.holds(p),
        None => false,
    }
}

/// The closure of a support set: the sweep, then the pass that grows the
/// radius over any point the sweep left outside.
fn closure_sweep(b: &Vec<Point>) -> (r: Circle)
    requires
        b.len() >= 2,
    ensures
        r == sweep_spec(b@),
        r.wf(),
        r.holds_all(b@),
        touches(r, b@),
{
    let n = b.len();
    let mut circle = Circle::from_2_points(&b[0], &b[1]);
    let ghost swept = sweep_i(circle, b@, 2);
    let mut i: usize = 2;
    while i < n
        invariant
            2 <= i <= n,
            n == b.len(),
            circle.wf(),
            touches(circle, b@),
            sweep_i(circle, b@, i as int) == swept,
        decreases n - i,
    {
        if !circle.contains(&b[i]) {
            circle = Circle::from_2_points(&b[0], &b[i]);
            let ghost mid = sweep_j(circle, b@, i as int, 1);
            let mut j: usize = 1;
            while j < i
                invariant
                    1 <= j <= i,
                    i < n,
                    n == b.len(),
                    circle.wf(),
                    touches(circle, b@),
                    sweep_j(circle, b@, i as int, j as int) == mid,
                decreases i - j,
            {
                if !circle.contains(&b[j]) {
                    circle = Circle::from_2_points(&b[i], &b[j]);
                    let ghost inner = sweep_k(circle, b@, i as int, j as int, 0);
                    let mut k: usize = 0;
                    while k < j
                        invariant
                            k <= j,
                            j < i,
                            i < n,
                            n == b.len(),
                            circle.wf(),
                            touches(circle, b@),
                            sweep_k(circle, b@, i as int, j as int, k as int) == inner,
                        decreases j - k,
                    {
                        if !circle.contains(&b[k]) {
                            circle = Circle::from_3_points(&b[i], &b[j], &b[k]);
                            proof { lemma_from_3_touches(b@, i as int, j as int, k as int); }
                        }
                        k = k + 1;
                    }
                }
                j = j + 1;
            }
        }
        i = i + 1;
    }
    let ghost grown = widen_all(circle, b@, 0);
    let mut m: usize = 0;
    while m < n
        invariant
            m <= n,
            n == b.len(),
            circle.wf(),
            touches(circle, b@),
            circle.holds_all(b@.take(m as int)),
            widen_all(circle, b@, m as int) == grown,
        decreases n - m,
    {
        let next = circle.widen(&b[m]);
        proof {
            assert forall|t: int| 0 <= t < m + 1 implies #[trigger] next.holds(b@.take(m + 1)[t]) by {
                if t < m {
                    assert(circle.holds(b@.take(m as int)[t]));
                    circle.lemma_widen_mono(b@[m as int], b@[t]);
                }
            }
            if next == circle {
            } else {
                assert(next.on_boundary(b@[m as int]));
            }
        }
        circle = next;
        m = m + 1;
    }
    assert(b@.take(n as int) =~= b@);
    circle
}

/// The circle through three points of `b` passes through one of them.
proof fn lemma_from_3_touches(b: Seq<Point>, i: int, j: int, k: int)
    requires
        0 <= i < b.len(),
        0 <= j < b.len(),
        0 <= k < b.len(),
    ensures
        touches(Circle::spec_from_3(b[i], b[j], b[k]), b),
{
    let c = Circle::spec_from_3(b[i], b[j], b[k]);
    Circle::lemma_from_3_on_boundary(b[i], b[j], b[k]);
    if c.on_boundary(b[i]) {
        assert(c.on_boundary(b[i]));
    } else if c.on_boundary(b[j]) {
        assert(c.on_boundary(b[j]));
    } else {
        assert(c.on_boundary(b[k]));
    }
}

/// The circle that the support set `b` determines.
fn boundary_circle(b: &Vec<Point>) -> (r: Option<Circle>)
    ensures
        r == support_circle(b@),
        r matches Some(c) ==> c.wf() && c.holds_all(b@) && touches(c, b@),
{
    let n = b.len();
    if n == 0 {
        None
    } else if n == 1 {
        let c = Circle::from_1_points(&b[0]);
        assert(c.on_boundary(b@[0]));
        Some(c)
    } else if n == 2 {
        let c = Circle::from_2_points(&b[0], &b[1]);
        assert(c.on_boundary(b@[0]));
        Some(c)
    } else if n == 3 {
        let c = Circle::from_3_points(&b[0], &b[1], &b[2]);
        proof { lemma_from_3_touches(b@, 0, 1, 2); }
        Some(c)
    } else {
        Some(closure_sweep(b))
    }
}

/// Welzl's recursion over the unplaced points `pts` (taken from the back)
/// and the support set `bnd`, which stops growing once it holds `k` points.
pub open spec fn welzl_spec(pts: Seq<Point>, bnd: Seq<Point>, k: nat) -> Option<Circle>
    decreases pts.len(),
{
    if bnd.len() >= k || pts.len() == 0 {
        support_circle(bnd)
    } else {
        let p = pts.last();
        let rest = pts.drop_last();
        let d = welzl_spec(rest, bnd, k);
        if covers(d, p) {
            d
        } else {
            welzl_spec(rest, bnd.push(p), k)
        }
    }
}

/// One step of the recursion on the shared stacks. Each point taken from
/// `pts` is put back, and each point added to `bnd` taken off again, so both
/// stacks are as they were when the call returns.
fn welzl_recursive(pts: &mut Vec<Point>, bnd: &mut Vec<Point>, k: usize) -> (r: Option<Circle>)
    requires
        old(bnd).len() <= k,
    ensures
        final(pts)@ == old(pts)@,
        final(bnd)@ == old(bnd)@,
        r.is_none() <==> old(bnd).len() == 0 && (k == 0 || old(pts).len() == 0),
        r matches Some(c) ==> c.wf() && c.holds_all(old(bnd)@),
        r matches Some(c) ==> (old(bnd).len() + old(pts).len() <= k ==> c.holds_all(old(pts)@)),
        r matches Some(c) ==> touches(c, old(bnd)@ + old(pts)@),
        r == welzl_spec(old(pts)@, old(bnd)@, k as nat),
    decreases old(pts).len(),
{
    if bnd.len() == k || pts.len() == 0 {
        let r = boundary_circle(bnd);
        proof {
            if let Some(c) = r {
                let t = choose|t: int| 0 <= t < bnd@.len() && #[trigger] c.on_boundary(bnd@[t]);
                assert((bnd@ + pts@)[t] == bnd@[t]);
            }
        }
        return r;
    }
    let ghost pts0 = pts@;
    let ghost bnd0 = bnd@;
    let p = pts.pop().unwrap();
    proof {
        assert(pts@ == pts0.drop_last());
        assert(p == pts0.last());
    }
    let d = welzl_recursive(pts, bnd, k);
    let kept = match d {
        Some(c) => c.contains(&p),
        None => false,
    };
    let r = if kept {
        proof {
            let c = d.unwrap();
            if bnd0.len() + pts0.len() <= k {
                assert forall|t: int| 0 <= t < pts0.len() implies #[trigger] c.holds(pts0[t]) by {
                    if t < pts0.len() - 1 {
                        assert(pts0[t] == pts0.drop_last()[t]);
                    }
                }
            }
            let rest = pts0.drop_last();
            let t = choose|t: int| 0 <= t < (bnd0 + rest).len() && #[trigger] c.on_boundary((bnd0 + rest)[t]);
            assert((bnd0 + rest)[t] == (bnd0 + pts0)[t]);
        }
        d
    } else {
        bnd.push(p);
        let e = welzl_recursive(pts, bnd, k);
        bnd.pop();
        proof {
            assert(bnd@ =~= bnd0);
            if let Some(c) = e {
                assert forall|t: int| 0 <= t < bnd0.len() implies #[trigger] c.holds(bnd0[t]) by {
                    assert(bnd0[t] == bnd0.push(p)[t]);
                }
                if bnd0.len() + pts0.len() <= k {
                    assert(c.holds(bnd0.push(p)[bnd0.len() as int]));
                    assert forall|t: int| 0 <= t < pts0.len() implies #[trigger] c.holds(pts0[t]) by {
                        if t < pts0.len() - 1 {
                            assert(pts0[t] == pts0.drop_last()[t]);
                        }
                    }
                }
                let rest = pts0.drop_last();
                let bp = bnd0.push(p);
                let t = choose|t: int| 0 <= t < (bp + rest).len() && #[trigger] c.on_boundary((bp + rest)[t]);
                if t < bnd0.len() {
                    assert((bp + rest)[t] == (bnd0 + pts0)[t]);
                } else if t == bnd0.len() {
                    assert((bp + rest)[t] == (bnd0 + pts0)[bnd0.len() + pts0.len() - 1]);
                } else {
                    assert((bp + rest)[t] == (bnd0 + pts0)[t - 1]);
                }
            }
        }
        e
    };
    pts.push(p);
    proof {
        assert(pts@ =~= pts0);
    }
    r
}

/// The answer a query gives for a circle found, or for none.
pub open spec fn as_answer(c: Option<Circle>) -> Result<Circle, EnclosingError> {
    match c {
        Some(c) => Ok(c),
        None => Err(EnclosingError::Insufficient { require: 1, points: 0 }),
    }
}

/// What a query for a support of `k` points among `pts` answers:
/// - fewer points than `k`: `Insufficient` with `k` and the number of points;
/// - `k == 0`: `Insufficient` with 1 and 0, as no circle comes of an empty
///   support;
/// - otherwise exactly the circle of Welzl's recursion, which passes through
///   one of the points and, when `k` covers them all, holds every point.
#[verifier::opaque]
pub open spec fn resolved(pts: Seq<Point>, k: usize, r: Result<Circle, EnclosingError>) -> bool {
    &&& pts.len() < k ==> r == Err::<Circle, EnclosingError>(
        EnclosingError::Insufficient { require: k, points: pts.len() as usize },
    )
    &&& pts.len() >= k && k == 0 ==> r == Err::<Circle, EnclosingError>(
        EnclosingError::Insufficient { require: 1, points: 0 },
    )
    &&& pts.len() >= k && k > 0 ==> r is Ok
    &&& r matches Ok(c) ==> c.wf() && touches(c, pts) && (k >= pts.len() ==> c.holds_all(pts))
    &&& pts.len() >= k ==> r == as_answer(
        welzl_spec(pts, Seq::empty(), k as nat),
    )
}

/// Finds the smallest circle of a point list by Welzl's recursion, with a
/// support set of at most `k` points.
pub struct WelzlResolver2D {
    points: Vec<Point>,
    k: usize,
}

impl WelzlResolver2D {
    /// The points the resolver works on.
    pub closed spec fn spec_points(&self) -> Seq<Point> {
        self.points@
    }

    /// The size of support it looks for.
    pub closed spec fn spec_k(&self) -> usize {
        self.k
    }

    /// A resolver over `points` whose support may grow to all of them.
    pub fn new(points: Vec<Point>) -> (r: Self)
        ensures
            r.spec_points() == points@,
            r.spec_k() == points.len(),
    {
        let k = points.len();
        WelzlResolver2D { points, k }
    }

    /// The same resolver, with the size of support set to `k`.
    pub fn with_smallest_points(self, k: usize) -> (r: Self)
        ensures
            r.spec_points() == self.spec_points(),
            r.spec_k() == k,
    {
        WelzlResolver2D { k, ..self }
    }

    /// Runs the recursion; see `resolved` for the answer.
    pub fn resolve(self) -> (r: Result<Circle, EnclosingError>)
        ensures
            resolved(self.spec_points(), self.spec_k(), r),
    {
        proof {
            reveal(resolved);
        }
        let mut points = self.points;
        let k = self.k;
        if points.len() < k {
            return Err(EnclosingError::Insufficient { require: k, points: points.len() });
        }
        let mut boundary: Vec<Point> = Vec::new();
        proof {
            assert(boundary@ =~= Seq::<Point>::empty());
        }
        let c = welzl_recursive(&mut points, &mut boundary, k);
        proof {
            assert(Seq::<Point>::empty() + self.points@ =~= self.points@);
        }
        match c {
            Some(c) => Ok(c),
            None => Err(EnclosingError::Insufficient { require: 1, points: 0 }),
        }
    }
}

/// Whenever a query over all the points finds a circle, every point lies in
/// it or on it.
pub proof fn law_enclosing_holds_all(pts: Seq<Point>, r: Result<Circle, EnclosingError>)
    requires
        pts.len() <= usize::MAX,
        resolved(pts, pts.len() as usize, r),
        r is Ok,
    ensures
        r->Ok_0.holds_all(pts),
{
    reveal(resolved);
}

/// A query over all the points fails exactly on an empty input.
pub proof fn law_enclosing_fails_only_on_empty(pts: Seq<Point>, r: Result<Circle, EnclosingError>)
    requires
        pts.len() <= usize::MAX,
        resolved(pts, pts.len() as usize, r),
    ensures
        r is Err <==> pts.len() == 0,
{
    reveal(resolved);
}

/// Asking for a support larger than the number of points fails with
/// `Insufficient`, carrying the size asked for and the number of points.
pub proof fn law_too_few_points(pts: Seq<Point>, k: usize, r: Result<Circle, EnclosingError>)
    requires
        resolved(pts, k, r),
        pts.len() < k,
    ensures
        r == Err::<Circle, EnclosingError>(
            EnclosingError::Insufficient { require: k, points: pts.len() as usize },
        ),
{
    reveal(resolved);
}

/// The circle of a single point has radius zero and the point as center.
pub proof fn law_single_point(p: Point, r: Result<Circle, EnclosingError>)
    requires
        resolved(seq![p], 1, r),
    ensures
        r == Ok::<Circle, EnclosingError>(Circle::spec_from_1(p)),
        r->Ok_0.r2 == 0,
        r->Ok_0.cx == p.x * r->Ok_0.den,
        r->Ok_0.cy == p.y * r->Ok_0.den,
{
    reveal(resolved);
    let s = seq![p];
    assert(s.drop_last() =~= Seq::<Point>::empty());
    assert(Seq::<Point>::empty().push(p) =~= seq![p]);
    assert(welzl_spec(Seq::empty(), Seq::empty(), 1) == None::<Circle>);
    assert(welzl_spec(Seq::empty(), seq![p], 1) == Some(Circle::spec_from_1(p)));
    assert(welzl_spec(s, Seq::empty(), 1) == Some(Circle::spec_from_1(p)));
    let c = Circle::spec_from_1(p);
    assert(c.den == 1 && c.r2 == 0 && c.cx == p.x && c.cy == p.y);
    assert(p.x * 1 == p.x && p.y * 1 == p.y);
}

/// The zero-radius circle at `a` holds `b` only when the two coincide.
proof fn lemma_point_circle(a: Point, b: Point)
    ensures
        Circle::spec_from_1(a).holds(b) <==> a == b,
{
    let dx = b.x * 1 - a.x;
    let dy = b.y * 1 - a.y;
    assert(dx * dx >= 0 && dy * dy >= 0) by (nonlinear_arith);
    if dx != 0 {
        assert(dx * dx > 0) by (nonlinear_arith) requires dx != 0;
    }
    if dy != 0 {
        assert(dy * dy > 0) by (nonlinear_arith) requires dy != 0;
    }
}

/// The circle of two points has their midpoint as center and half their
/// distance as radius: `2 * center == (a + b)` and
/// `4 * radius^2 == |a - b|^2`, both over the denominator.
pub proof fn law_two_points(a: Point, b: Point, r: Result<Circle, EnclosingError>)
    requires
        resolved(seq![a, b], 2, r),
    ensures
        r is Ok,
        2 * r->Ok_0.cx == (a.x + b.x) * r->Ok_0.den,
        2 * r->Ok_0.cy == (a.y + b.y) * r->Ok_0.den,
        4 * r->Ok_0.r2 == dist2(a, b) * (r->Ok_0.den * r->Ok_0.den),
{
    reveal(resolved);
    let e = Seq::<Point>::empty();
    let s = seq![a, b];
    assert(s.drop_last() =~= seq![a]);
    assert(seq![a].drop_last() =~= e);
    assert(e.push(a) =~= seq![a]);
    assert(e.push(b) =~= seq![b]);
    assert(seq![b].push(a) =~= seq![b, a]);
    assert(welzl_spec(e, e, 2) == None::<Circle>);
    assert(seq![a].last() == a);
    assert(seq![a, b].last() == b);
    assert(welzl_spec(e, seq![a], 2) == Some(Circle::spec_from_1(a)));
    assert(welzl_spec(seq![a], e, 2) == Some(Circle::spec_from_1(a)));
    assert(welzl_spec(e, seq![b], 2) == Some(Circle::spec_from_1(b)));
    lemma_point_circle(a, b);
    lemma_point_circle(b, a);
    if a == b {
        assert(welzl_spec(s, e, 2) == Some(Circle::spec_from_1(a)));
        assert(a.x - b.x == 0 && a.y - b.y == 0);
        assert(dist2(a, b) == 0 * 0 + 0 * 0);
        assert((a.x + b.x) * 1 == 2 * a.x && (a.y + b.y) * 1 == 2 * a.y);
        assert(dist2(a, b) * (1 * 1) == 0);
    } else {
        let ba = seq![b, a];
        assert(ba.len() == 2 && ba[0] == b && ba[1] == a);
        assert(welzl_spec(e, ba, 2) == Some(Circle::spec_from_2(b, a)));
        assert(welzl_spec(seq![a], seq![b], 2) == Some(Circle::spec_from_2(b, a)));
        assert(welzl_spec(s, e, 2) == Some(Circle::spec_from_2(b, a)));
        assert((a.x + b.x) * 2 == 2 * (b.x + a.x) && (a.y + b.y) * 2 == 2 * (b.y + a.y));
        let dx = a.x - b.x;
        let dy = a.y - b.y;
        assert((b.x - a.x) * (b.x - a.x) == dx * dx) by (nonlinear_arith) requires dx == a.x - b.x;
        assert((b.y - a.y) * (b.y - a.y) == dy * dy) by (nonlinear_arith) requires dy == a.y - b.y;
        assert(0 <= dx * dx <= 0x1_0000_0000) by (nonlinear_arith) requires -0x10000 <= dx <= 0x10000;
        assert(0 <= dy * dy <= 0x1_0000_0000) by (nonlinear_arith) requires -0x10000 <= dy <= 0x10000;
        assert(Circle::spec_from_2(b, a).r2 == dist2(a, b));
        assert(dist2(a, b) * (2 * 2) == 4 * dist2(a, b));
    }
}

/// Two queries over the same points with the same `k` give the same
/// answer; in particular `enclosing_k(n)` over `n` points answers as
/// `enclosing()` does.
pub proof fn law_same_input_same_circle(
    pts: Seq<Point>,
    k: usize,
    r1: Result<Circle, EnclosingError>,
    r2: Result<Circle, EnclosingError>,
)
    requires
        resolved(pts, k, r1),
        resolved(pts, k, r2),
    ensures
        r1 == r2,
{
    reveal(resolved);
}

/// The circle found over all the points is tight: one of the points lies
/// exactly on it, so no smaller radius about the same center holds them all.
pub proof fn law_enclosing_tight(pts: Seq<Point>, r: Result<Circle, EnclosingError>)
    requires
        pts.len() <= usize::MAX,
        resolved(pts, pts.len() as usize, r),
        r is Ok,
    ensures
        exists|t: int| 0 <= t < pts.len() && #[trigger] r->Ok_0.on_boundary(pts[t]),
        forall|q: Circle| q.cx == r->Ok_0.cx && q.cy == r->Ok_0.cy && q.den == r->Ok_0.den
            && q.r2 < r->Ok_0.r2 ==> !#[trigger] q.holds_all(pts),
{
    reveal(resolved);
    let c = r->Ok_0;
    let t = choose|t: int| 0 <= t < pts.len() && #[trigger] c.on_boundary(pts[t]);
    assert forall|q: Circle| q.cx == c.cx && q.cy == c.cy && q.den == c.den && q.r2 < c.r2
        implies !#[trigger] q.holds_all(pts) by {
        assert(!q.holds(pts[t]));
    }
}

/// With a support of one point, the recursion gives the zero-radius circle
/// at one of the points.
proof fn lemma_single_support(pts: Seq<Point>)
    requires
        pts.len() >= 1,
    ensures
        exists|t: int| 0 <= t < pts.len()
            && welzl_spec(pts, Seq::empty(), 1) == Some(Circle::spec_from_1(#[trigger] pts[t])),
    decreases pts.len(),
{
    let p = pts.last();
    let rest = pts.drop_last();
    let e = Seq::<Point>::empty();
    assert(e.push(p) =~= seq![p]);
    assert(welzl_spec(rest, e.push(p), 1) == Some(Circle::spec_from_1(p)));
    if rest.len() == 0 {
        assert(welzl_spec(rest, e, 1) == None::<Circle>);
        assert(pts[pts.len() - 1] == p);
    } else {
        lemma_single_support(rest);
        let t = choose|t: int| 0 <= t < rest.len()
            && welzl_spec(rest, e, 1) == Some(Circle::spec_from_1(#[trigger] rest[t]));
        assert(rest[t] == pts[t]);
        assert(pts[pts.len() - 1] == p);
    }
}

/// Asking for a support of one point gives a circle of radius zero centered
/// at one of the points.
pub proof fn law_single_support(pts: Seq<Point>, r: Result<Circle, EnclosingError>)
    requires
        pts.len() >= 1,
        resolved(pts, 1, r),
    ensures
        r is Ok,
        r->Ok_0.r2 == 0,
        exists|t: int| 0 <= t < pts.len() && r->Ok_0 == Circle::spec_from_1(#[trigger] pts[t]),
{
    reveal(resolved);
    lemma_single_support(pts);
}

} // verus!
