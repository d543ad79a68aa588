//! Laws of rectangles and paths, and of the middle and the direction of shapes.

use vstd::prelude::*;

use crate::geom::bounds;
use crate::geom::on_path;
use crate::geom::segment_covers;
use crate::geom::turn;
use crate::geom::Dir;
use crate::geom::Point;
use crate::geom::ShapeView;
use crate::laws_geom::lies_between;
use crate::laws_geom::side;

verus! {

/// `n` is neither less than both `a` and `b` nor greater than both.
pub open spec fn is_amid(a: int, b: int, n: int) -> bool {
    !(n < a && n < b) && !(n > a && n > b)
}

/// A rectangle covers what lies between its sides, whichever two opposite corners it is given by.
pub proof fn law_rect(p0: Point, p1: Point, p: Point)
    ensures
        (ShapeView::Rect { p0, p1 }).contains(p) <==> is_amid(
            p0.x as int,
            p1.x as int,
            p.x as int,
        ) && is_amid(p0.y as int, p1.y as int, p.y as int),
{
}

/// A path covers what one of its segments, as a path of its own, covers.
pub proof fn law_path_parts(width: usize, pts: Seq<Point>, p: Point)
    ensures
        (ShapeView::Path { width, pts }).contains(p) <==> exists|i: int|
            0 <= i < pts.len() - 1 && #[trigger] covered_by_segment(width, pts, i, p),
{
    if on_path(width, pts, p) {
        let i = choose|i: int|
            0 <= i < pts.len() - 1 && segment_covers(width, #[trigger] pts[i], pts[i + 1], p);
        let two = seq![pts[i], pts[i + 1]];
        assert(segment_covers(width, two[0], two[1], p));
        assert(covered_by_segment(width, pts, i, p));
    }
    if exists|i: int| 0 <= i < pts.len() - 1 && #[trigger] covered_by_segment(width, pts, i, p) {
        let i = choose|i: int|
            0 <= i < pts.len() - 1 && #[trigger] covered_by_segment(width, pts, i, p);
        let two = seq![pts[i], pts[i + 1]];
        let k = choose|k: int|
            0 <= k < two.len() - 1 && segment_covers(width, #[trigger] two[k], two[k + 1], p);
        assert(segment_covers(width, pts[i], pts[i + 1], p));
    }
}

/// The `i`th segment of a path, as a path of its own, covers `p`.
pub open spec fn covered_by_segment(width: usize, pts: Seq<Point>, i: int, p: Point) -> bool {
    (ShapeView::Path { width, pts: seq![pts[i], pts[i + 1]] }).contains(p)
}

/// An upright or a level segment covers what lies between its ends, and no further from its centre
/// line than half its width. Any other segment covers its centre line.
pub proof fn law_path_segment(width: usize, a: Point, b: Point, p: Point)
    ensures
        (ShapeView::Path { width, pts: seq![a, b] }).contains(p) <==> {
            ||| a.x == b.x && is_amid(a.y as int, b.y as int, p.y as int) && 2 * (p.x - a.x)
                <= width && 2 * (a.x - p.x) <= width
            ||| a.x != b.x && a.y == b.y && is_amid(a.x as int, b.x as int, p.x as int) && 2 * (p.y
                - a.y) <= width && 2 * (a.y - p.y) <= width
            ||| a.x != b.x && a.y != b.y && lies_between(a, b, p)
        },
{
    let two = seq![a, b];
    let shape = ShapeView::Path { width, pts: two };
    if segment_covers(width, a, b, p) {
        assert(segment_covers(width, two[0], two[1], p));
        assert(on_path(width, two, p));
    }
    if on_path(width, two, p) {
        let k = choose|k: int|
            0 <= k < two.len() - 1 && segment_covers(width, #[trigger] two[k], two[k + 1], p);
        assert(k == 0);
    }
    let (ax, ay) = (a.x as int, a.y as int);
    let (bx, by) = (b.x as int, b.y as int);
    let (px, py) = (p.x as int, p.y as int);
    assert((bx - ax) * (py - ay) - (px - ax) * (by - ay) == (ax - px) * (by - py) - (ay - py) * (bx
        - px)) by (nonlinear_arith);
    assert(turn(a, b, p) == side(a, b, p));
}

/// `m` is the middle between `a` and `b`: just there, or, where there is no such number, the
/// neighbour that is closer to zero.
pub open spec fn is_middle(a: int, b: int, m: int) -> bool {
    &&& a + b >= 0 ==> 2 * m == a + b || 2 * m == a + b - 1
    &&& a + b < 0 ==> 2 * m == a + b || 2 * m == a + b + 1
}

/// The distance between `a` and `b`.
pub open spec fn distance(a: int, b: int) -> int {
    if a <= b {
        b - a
    } else {
        a - b
    }
}

/// The points of a shape.
pub open spec fn points_of(inner: ShapeView) -> Seq<Point> {
    match inner {
        ShapeView::Rect { p0, p1 } => seq![p0, p1],
        ShapeView::Poly { pts } => pts,
        ShapeView::Path { pts, .. } => pts,
    }
}

/// The `i`th point of `pts` lies further above the `j`th than any point lies to the right of another.
pub open spec fn rises_beyond(pts: Seq<Point>, i: int, j: int) -> bool {
    forall|k: int, l: int|
        0 <= k < pts.len() && 0 <= l < pts.len() ==> (#[trigger] pts[k]).x - (#[trigger] pts[l]).x
            < pts[i].y - pts[j].y
}

/// Some two points of `pts` lie further apart in height than any two do in width.
pub open spec fn is_taller(pts: Seq<Point>) -> bool {
    exists|i: int, j: int|
        0 <= i < pts.len() && 0 <= j < pts.len() && #[trigger] rises_beyond(pts, i, j)
}

/// The smallest box around points touches the leftmost, the rightmost, the lowest and the highest of
/// them.
proof fn lemma_bounds(pts: Seq<Point>)
    requires
        pts.len() > 0,
    ensures
        forall|k: int|
            0 <= k < pts.len() ==> bounds(pts).0.x <= (#[trigger] pts[k]).x <= bounds(pts).1.x
                && bounds(pts).0.y <= pts[k].y <= bounds(pts).1.y,
        exists|k: int| 0 <= k < pts.len() && (#[trigger] pts[k]).x == bounds(pts).0.x,
        exists|k: int| 0 <= k < pts.len() && (#[trigger] pts[k]).x == bounds(pts).1.x,
        exists|k: int| 0 <= k < pts.len() && (#[trigger] pts[k]).y == bounds(pts).0.y,
        exists|k: int| 0 <= k < pts.len() && (#[trigger] pts[k]).y == bounds(pts).1.y,
    decreases pts.len(),
{
    let n = pts.len() as int;
    assert(pts[n - 1] == pts.last());
    if n > 1 {
        let short = pts.drop_last();
        lemma_bounds(short);
        assert forall|k: int| 0 <= k < n implies bounds(pts).0.x <= (#[trigger] pts[k]).x <= bounds(
            pts,
        ).1.x && bounds(pts).0.y <= pts[k].y <= bounds(pts).1.y by {
            if k < n - 1 {
                assert(short[k] == pts[k]);
            }
        }
        let west = choose|k: int| 0 <= k < short.len() && (#[trigger] short[k]).x == bounds(short).0.x;
        let east = choose|k: int| 0 <= k < short.len() && (#[trigger] short[k]).x == bounds(short).1.x;
        let south = choose|k: int|
            0 <= k < short.len() && (#[trigger] short[k]).y == bounds(short).0.y;
        let north = choose|k: int|
            0 <= k < short.len() && (#[trigger] short[k]).y == bounds(short).1.y;
        assert(pts[west].x == bounds(short).0.x && pts[east].x == bounds(short).1.x);
        assert(pts[south].y == bounds(short).0.y && pts[north].y == bounds(short).1.y);
    } else {
        assert(pts[0].x == bounds(pts).0.x);
    }
}

/// The centre of a shape is the middle between its leftmost and its rightmost point, and between its
/// lowest and its highest.
pub proof fn law_centre(inner: ShapeView, west: int, east: int, south: int, north: int)
    requires
        0 <= west < points_of(inner).len(),
        0 <= east < points_of(inner).len(),
        0 <= south < points_of(inner).len(),
        0 <= north < points_of(inner).len(),
        forall|k: int|
            #![trigger points_of(inner)[k]]
            0 <= k < points_of(inner).len() ==> {
                &&& points_of(inner)[west].x <= points_of(inner)[k].x <= points_of(inner)[east].x
                &&& points_of(inner)[south].y <= points_of(inner)[k].y <= points_of(inner)[north].y
            },
    ensures
        is_middle(
            points_of(inner)[west].x as int,
            points_of(inner)[east].x as int,
            inner.center().x as int,
        ),
        is_middle(
            points_of(inner)[south].y as int,
            points_of(inner)[north].y as int,
            inner.center().y as int,
        ),
{
    let pts = points_of(inner);
    if let ShapeView::Rect { p0, p1 } = inner {
        assert(pts[0] == p0 && pts[1] == p1);
    } else {
        lemma_bounds(pts);
        let (lo, hi) = bounds(pts);
        let a = choose|k: int| 0 <= k < pts.len() && (#[trigger] pts[k]).x == lo.x;
        let b = choose|k: int| 0 <= k < pts.len() && (#[trigger] pts[k]).x == hi.x;
        let c = choose|k: int| 0 <= k < pts.len() && (#[trigger] pts[k]).y == lo.y;
        let d = choose|k: int| 0 <= k < pts.len() && (#[trigger] pts[k]).y == hi.y;
        assert(pts[west].x == lo.x && pts[east].x == hi.x);
        assert(pts[south].y == lo.y && pts[north].y == hi.y);
    }
}

/// The spread of points is that of the outermost of them.
proof fn lemma_taller(pts: Seq<Point>, west: int, east: int, south: int, north: int)
    requires
        0 <= west < pts.len(),
        0 <= east < pts.len(),
        0 <= south < pts.len(),
        0 <= north < pts.len(),
        forall|k: int|
            0 <= k < pts.len() ==> pts[west].x <= (#[trigger] pts[k]).x <= pts[east].x
                && pts[south].y <= pts[k].y <= pts[north].y,
    ensures
        is_taller(pts) <==> pts[east].x - pts[west].x < pts[north].y - pts[south].y,
{
    if is_taller(pts) {
        let (i, j) = choose|i: int, j: int|
            0 <= i < pts.len() && 0 <= j < pts.len() && #[trigger] rises_beyond(pts, i, j);
        assert(pts[east].x - pts[west].x < pts[i].y - pts[j].y);
    }
    if pts[east].x - pts[west].x < pts[north].y - pts[south].y {
        assert(rises_beyond(pts, north, south));
    }
}

/// [`law_orientation`] of the box around points.
proof fn lemma_bounds_taller(pts: Seq<Point>)
    requires
        pts.len() > 0,
    ensures
        is_taller(pts) <==> bounds(pts).1.x - bounds(pts).0.x < bounds(pts).1.y - bounds(pts).0.y,
        bounds(pts).0.x <= bounds(pts).1.x,
        bounds(pts).0.y <= bounds(pts).1.y,
{
    lemma_bounds(pts);
    let (lo, hi) = bounds(pts);
    let west = choose|k: int| 0 <= k < pts.len() && (#[trigger] pts[k]).x == lo.x;
    let east = choose|k: int| 0 <= k < pts.len() && (#[trigger] pts[k]).x == hi.x;
    let south = choose|k: int| 0 <= k < pts.len() && (#[trigger] pts[k]).y == lo.y;
    let north = choose|k: int| 0 <= k < pts.len() && (#[trigger] pts[k]).y == hi.y;
    assert(lo.x <= pts[0].x <= hi.x && lo.y <= pts[0].y <= hi.y);
    lemma_taller(pts, west, east, south, north);
}

/// A shape runs vertically if and only if the box around it is taller than it is wide.
pub proof fn law_orientation(inner: ShapeView)
    requires
        points_of(inner).len() > 0,
    ensures
        inner.orientation() == Dir::Vert <==> is_taller(points_of(inner)),
        inner.orientation() == Dir::Horiz <==> !is_taller(points_of(inner)),
{
    let pts = points_of(inner);
    match inner {
        ShapeView::Rect { p0, p1 } => {
            assert(pts[0] == p0 && pts[1] == p1);
            let (west, east) = if p0.x <= p1.x {
                (0int, 1int)
            } else {
                (1int, 0int)
            };
            let (south, north) = if p0.y <= p1.y {
                (0int, 1int)
            } else {
                (1int, 0int)
            };
            lemma_taller(pts, west, east, south, north);
        },
        ShapeView::Poly { .. } => {
            lemma_bounds_taller(pts);
        },
        ShapeView::Path { .. } => {
            lemma_bounds_taller(pts);
        },
    }
}

/// A rectangle runs vertically if and only if it is higher than it is wide, whichever two opposite
/// corners it is given by; and its centre is the middle between any two of them.
pub proof fn law_rect_corners(p0: Point, p1: Point)
    ensures
        ({
            let rect = ShapeView::Rect { p0, p1 };
            let swapped = ShapeView::Rect { p0: p1, p1: p0 };
            let crossed = ShapeView::Rect {
                p0: Point { x: p1.x, y: p0.y },
                p1: Point { x: p0.x, y: p1.y },
            };
            &&& rect.orientation() == Dir::Vert <==> distance(p0.x as int, p1.x as int) < distance(
                p0.y as int,
                p1.y as int,
            )
            &&& swapped.orientation() == rect.orientation()
            &&& crossed.orientation() == rect.orientation()
            &&& is_middle(p0.x as int, p1.x as int, rect.center().x as int)
            &&& is_middle(p0.y as int, p1.y as int, rect.center().y as int)
            &&& swapped.center() == rect.center()
            &&& crossed.center() == rect.center()
        }),
{
}

} // verus!
