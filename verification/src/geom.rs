//! Points and shapes, and where a point lies against a shape.

use vstd::prelude::*;

verus! {

/// A location, in a library's distance units.
#[derive(Clone, Copy, Debug, PartialEq, Eq, Structural)]
pub struct Point {
    pub x: isize,
    pub y: isize,
}

/// The two routing directions.
#[derive(Clone, Copy, Debug, PartialEq, Eq, Structural)]
pub enum Dir {
    Horiz,
    Vert,
}

/// A geometric shape.
#[derive(Debug)]
pub enum Shape {
    /// An axis-parallel rectangle, by two opposite corners.
    Rect { p0: Point, p1: Point },
    /// A polygon, by its corners in order, without repetition of the first.
    Poly { pts: Vec<Point> },
    /// A path of some width along a centre line.
    Path { width: usize, pts: Vec<Point> },
}

/// The mathematical value of a [`Shape`].
pub enum ShapeView {
    Rect { p0: Point, p1: Point },
    Poly { pts: Seq<Point> },
    Path { width: usize, pts: Seq<Point> },
}

impl View for Shape {
    type V = ShapeView;

    open spec fn view(&self) -> ShapeView {
        match *self {
            Shape::Rect { p0, p1 } => ShapeView::Rect { p0, p1 },
            Shape::Poly { pts } => ShapeView::Poly { pts: pts@ },
            Shape::Path { width, pts } => ShapeView::Path { width, pts: pts@ },
        }
    }
}

impl Point {
    pub fn new(x: isize, y: isize) -> (p: Point)
        ensures
            p == (Point { x, y }),
    {
        Point { x, y }
    }
}

/// `n` lies between `a` and `b`, in whichever order they are, ends included.
pub open spec fn between(a: int, b: int, n: int) -> bool {
    a <= n <= b || b <= n <= a
}

/// `p` lies in the axis-parallel box with opposite corners `a` and `b`, border included.
pub open spec fn in_box(a: Point, b: Point, p: Point) -> bool {
    between(a.x as int, b.x as int, p.x as int) && between(a.y as int, b.y as int, p.y as int)
}

/// Twice the signed area of the triangle `a`, `b`, `p`: positive where `p` lies to the left of
/// the line from `a` to `b`, zero where it lies on it.
pub open spec fn turn(a: Point, b: Point, p: Point) -> int {
    (b.x - a.x) * (p.y - a.y) - (p.x - a.x) * (b.y - a.y)
}

/// `p` lies on the segment from `a` to `b`.
pub open spec fn on_segment(a: Point, b: Point, p: Point) -> bool {
    in_box(a, b, p) && turn(a, b, p) == 0
}

/// What the edge from `a` to `b` adds to the winding number around `p`.
pub open spec fn edge_winding(a: Point, b: Point, p: Point) -> int {
    if a.y <= p.y < b.y && turn(a, b, p) > 0 {
        1
    } else if b.y <= p.y < a.y && turn(a, b, p) < 0 {
        -1
    } else {
        0
    }
}

/// The corner at which the `i`th edge of a polygon ends.
pub open spec fn edge_end(pts: Seq<Point>, i: int) -> Point {
    if i + 1 < pts.len() {
        pts[i + 1]
    } else {
        pts[0]
    }
}

/// The winding number of the first `n` edges of a polygon around `p`.
pub open spec fn winding(pts: Seq<Point>, p: Point, n: nat) -> int
    decreases n,
{
    if n == 0 {
        0
    } else {
        winding(pts, p, (n - 1) as nat) + edge_winding(pts[n - 1], edge_end(pts, n - 1), p)
    }
}

/// `p` lies on the border of a polygon.
pub open spec fn on_border(pts: Seq<Point>, p: Point) -> bool {
    exists|i: int| 0 <= i < pts.len() && on_segment(#[trigger] pts[i], edge_end(pts, i), p)
}

/// The segment from `a` to `b` of a path of width `width` covers `p`. A segment that runs along
/// an axis extends by half the width to either side of its centre line, and ends flush; a slanted
/// one counts by its centre line alone.
pub open spec fn segment_covers(width: usize, a: Point, b: Point, p: Point) -> bool {
    if a.x == b.x {
        between(a.y as int, b.y as int, p.y as int) && -width <= 2 * (p.x - a.x) <= width
    } else if a.y == b.y {
        between(a.x as int, b.x as int, p.x as int) && -width <= 2 * (p.y - a.y) <= width
    } else {
        on_segment(a, b, p)
    }
}

/// Some segment of a path of width `width` along `pts` covers `p`.
pub open spec fn on_path(width: usize, pts: Seq<Point>, p: Point) -> bool {
    exists|i: int|
        0 <= i < pts.len() - 1 && segment_covers(width, #[trigger] pts[i], pts[i + 1], p)
}

/// Half of `n`, rounded toward zero.
pub open spec fn half(n: int) -> int {
    if n >= 0 {
        n / 2
    } else {
        -((-n) / 2)
    }
}

/// The box with corners `lo` and `hi`, grown so as to hold `p`.
pub open spec fn grow(lo: Point, hi: Point, p: Point) -> (Point, Point) {
    (
        Point {
            x: if p.x < lo.x { p.x } else { lo.x },
            y: if p.y < lo.y { p.y } else { lo.y },
        },
        Point {
            x: if p.x > hi.x { p.x } else { hi.x },
            y: if p.y > hi.y { p.y } else { hi.y },
        },
    )
}

/// The lower left and the upper right corner of the smallest box that holds `pts`.
pub open spec fn bounds(pts: Seq<Point>) -> (Point, Point)
    decreases pts.len(),
{
    if pts.len() <= 1 {
        (pts[0], pts[0])
    } else {
        let (lo, hi) = bounds(pts.drop_last());
        grow(lo, hi, pts.last())
    }
}

impl ShapeView {
    /// The shape covers `p`. A shape's border belongs to it.
    pub open spec fn contains(self, p: Point) -> bool {
        match self {
            ShapeView::Rect { p0, p1 } => in_box(p0, p1, p),
            ShapeView::Poly { pts } => on_border(pts, p) || winding(pts, p, pts.len()) != 0,
            ShapeView::Path { width, pts } => on_path(width, pts, p),
        }
    }

    /// The shape has a first point.
    pub open spec fn is_placed(self) -> bool {
        match self {
            ShapeView::Rect { .. } => true,
            ShapeView::Poly { pts } => pts.len() > 0,
            ShapeView::Path { pts, .. } => pts.len() > 0,
        }
    }

    /// Two opposite corners of the box around the shape's points.
    pub open spec fn corners(self) -> (Point, Point) {
        match self {
            ShapeView::Rect { p0, p1 } => (p0, p1),
            ShapeView::Poly { pts } => bounds(pts),
            ShapeView::Path { pts, .. } => bounds(pts),
        }
    }

    /// The middle of the box around the shape's points.
    pub open spec fn center(self) -> Point {
        let (a, b) = self.corners();
        Point { x: half(a.x + b.x) as isize, y: half(a.y + b.y) as isize }
    }

    /// Vertical where the box around the shape's points is taller than it is wide.
    pub open spec fn orientation(self) -> Dir {
        let (a, b) = self.corners();
        if vstd::math::abs(b.x - a.x) < vstd::math::abs(b.y - a.y) {
            Dir::Vert
        } else {
            Dir::Horiz
        }
    }
}

/// Which way [`turn`] turns: its sign.
fn turn_sign(a: Point, b: Point, p: Point) -> (sign: i8)
    ensures
        sign == 0 <==> turn(a, b, p) == 0,
        sign == 1 <==> turn(a, b, p) > 0,
        sign == -1 <==> turn(a, b, p) < 0,
{
    let (neg0, mag0) = product(b.x, a.x, p.y, a.y);
    let (neg1, mag1) = product(p.x, a.x, b.y, a.y);
    if neg0 {
        if neg1 {
            if mag0 < mag1 {
                1
            } else if mag0 == mag1 {
                0
            } else {
                -1
            }
        } else if mag0 == 0 && mag1 == 0 {
            0
        } else {
            -1
        }
    } else if neg1 {
        if mag0 == 0 && mag1 == 0 {
            0
        } else {
            1
        }
    } else if mag0 < mag1 {
        -1
    } else if mag0 == mag1 {
        0
    } else {
        1
    }
}

/// The distance from `b` to `a`, and whether `a` lies below `b`.
fn difference(a: isize, b: isize) -> (d: (bool, u128))
    ensures
        d.1 <= u64::MAX,
        a - b == (if d.0 { -(d.1 as int) } else { d.1 as int }),
{
    let d: i128 = a as i128 - b as i128;
    if d < 0 {
        (true, (-d) as u128)
    } else {
        (false, d as u128)
    }
}

/// The product of `a - b` and `c - d`, by sign and magnitude.
fn product(a: isize, b: isize, c: isize, d: isize) -> (p: (bool, u128))
    ensures
        (a - b) * (c - d) == (if p.0 { -(p.1 as int) } else { p.1 as int }),
{
    let (neg0, mag0) = difference(a, b);
    let (neg1, mag1) = difference(c, d);
    assert(0 <= mag0 * mag1 <= u128::MAX) by (nonlinear_arith)
        requires
            mag0 <= u64::MAX,
            mag1 <= u64::MAX,
    ;
    let ghost (m0, m1) = (mag0 as int, mag1 as int);
    assert((-m0) * m1 == -(m0 * m1)) by (nonlinear_arith);
    assert(m0 * (-m1) == -(m0 * m1)) by (nonlinear_arith);
    assert((-m0) * (-m1) == m0 * m1) by (nonlinear_arith);
    (neg0 != neg1, mag0 * mag1)
}

/// Whether `n` lies between `a` and `b`.
fn is_between(a: isize, b: isize, n: isize) -> (r: bool)
    ensures
        r == between(a as int, b as int, n as int),
{
    (a <= n && n <= b) || (b <= n && n <= a)
}

/// Whether `p` lies in the box with opposite corners `a` and `b`.
fn is_in_box(a: Point, b: Point, p: Point) -> (r: bool)
    ensures
        r == in_box(a, b, p),
{
    is_between(a.x, b.x, p.x) && is_between(a.y, b.y, p.y)
}

/// Whether `p` lies on the segment from `a` to `b`.
fn is_on_segment(a: Point, b: Point, p: Point) -> (r: bool)
    ensures
        r == on_segment(a, b, p),
{
    is_in_box(a, b, p) && turn_sign(a, b, p) == 0
}

/// Whether `p` lies within half of `width` of `c`.
fn is_within(width: usize, c: isize, p: isize) -> (r: bool)
    ensures
        r == (-width <= 2 * (p - c) <= width),
{
    let d: i128 = 2 * (p as i128 - c as i128);
    let w: i128 = width as i128;
    -w <= d && d <= w
}

/// Whether a polygon with corners `pts` covers `p`.
fn poly_contains(pts: &Vec<Point>, p: Point) -> (r: bool)
    ensures
        r == (ShapeView::Poly { pts: pts@ }).contains(p),
{
    let mut left: usize = 0;
    let mut right: usize = 0;
    let mut i: usize = 0;
    while i < pts.len()
        invariant
            0 <= i <= pts.len(),
            left <= i,
            right <= i,
            left - right == winding(pts@, p, i as nat),
            forall|j: int|
                0 <= j < i ==> !on_segment(#[trigger] pts@[j], edge_end(pts@, j), p),
        decreases pts.len() - i,
    {
        let a = pts[i];
        let b = if i + 1 < pts.len() {
            pts[i + 1]
        } else {
            pts[0]
        };
        assert(b == edge_end(pts@, i as int));
        if is_on_segment(a, b, p) {
            return true;
        }
        let sign = turn_sign(a, b, p);
        if a.y <= p.y && p.y < b.y && sign == 1 {
            left += 1;
        } else if b.y <= p.y && p.y < a.y && sign == -1 {
            right += 1;
        }
        i += 1;
    }
    left != right
}

/// Whether a path of width `width` along `pts` covers `p`.
fn path_contains(width: usize, pts: &Vec<Point>, p: Point) -> (r: bool)
    ensures
        r == (ShapeView::Path { width, pts: pts@ }).contains(p),
{
    let mut i: usize = 1;
    while i < pts.len()
        invariant
            1 <= i,
            forall|j: int|
                0 <= j < i - 1 && j < pts@.len() - 1 ==> !segment_covers(
                    width,
                    #[trigger] pts@[j],
                    pts@[j + 1],
                    p,
                ),
        decreases pts.len() - i,
    {
        let a = pts[i - 1];
        let b = pts[i];
        let covered = if a.x == b.x {
            is_between(a.y, b.y, p.y) && is_within(width, a.x, p.x)
        } else if a.y == b.y {
            is_between(a.x, b.x, p.x) && is_within(width, a.y, p.y)
        } else {
            is_on_segment(a, b, p)
        };
        if covered {
            let ghost j = i - 1;
            assert(0 <= j < pts@.len() - 1);
            assert(segment_covers(width, pts@[j], pts@[j + 1], p));
            assert(on_path(width, pts@, p));
            return true;
        }
        i += 1;
    }
    false
}

/// The lower left and the upper right corner of the smallest box that holds `pts`.
fn bounds_of(pts: &Vec<Point>) -> (r: (Point, Point))
    requires
        pts@.len() > 0,
    ensures
        r == bounds(pts@),
{
    let mut lo = pts[0];
    let mut hi = pts[0];
    let mut i: usize = 1;
    while i < pts.len()
        invariant
            1 <= i <= pts.len(),
            (lo, hi) == bounds(pts@.take(i as int)),
        decreases pts.len() - i,
    {
        let p = pts[i];
        assert(pts@.take(i + 1).drop_last() =~= pts@.take(i as int));
        if p.x < lo.x {
            lo.x = p.x;
        }
        if p.y < lo.y {
            lo.y = p.y;
        }
        if p.x > hi.x {
            hi.x = p.x;
        }
        if p.y > hi.y {
            hi.y = p.y;
        }
        i += 1;
    }
    assert(pts@.take(i as int) =~= pts@);
    (lo, hi)
}

/// The number midway between `a` and `b`, rounded toward zero.
fn midway(a: isize, b: isize) -> (m: isize)
    ensures
        m == half(a + b),
{
    ((a as i128 + b as i128) / 2) as isize
}

impl Shape {
    /// Two opposite corners of the box around the shape's points.
    fn corners(&self) -> (r: (Point, Point))
        requires
            self@.is_placed(),
        ensures
            r == self@.corners(),
    {
        match self {
            Shape::Rect { p0, p1 } => (*p0, *p1),
            Shape::Poly { pts } => bounds_of(pts),
            Shape::Path { pts, .. } => bounds_of(pts),
        }
    }

    /// The shape's (at least rough) centre: the middle of the box around its points.
    pub fn center(&self) -> (p: Point)
        requires
            self@.is_placed(),
        ensures
            p == self@.center(),
    {
        let (a, b) = self.corners();
        Point::new(midway(a.x, b.x), midway(a.y, b.y))
    }

    /// Whether the shape runs mostly horizontally or mostly vertically.
    pub fn orientation(&self) -> (d: Dir)
        requires
            self@.is_placed(),
        ensures
            d == self@.orientation(),
    {
        let (a, b) = self.corners();
        let (_, width) = difference(b.x, a.x);
        let (_, height) = difference(b.y, a.y);
        if width < height {
            Dir::Vert
        } else {
            Dir::Horiz
        }
    }

    /// Whether the shape covers `p`. A shape's border belongs to it.
    pub fn contains(&self, p: &Point) -> (r: bool)
        ensures
            r == self@.contains(*p),
    {
        match self {
            Shape::Rect { p0, p1 } => is_in_box(*p0, *p1, *p),
            Shape::Poly { pts } => poly_contains(pts, *p),
            Shape::Path { width, pts } => path_contains(*width, pts, *p),
        }
    }
}

} // verus!
