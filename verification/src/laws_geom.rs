//! Laws of shapes: which points a shape covers, where its middle is, and which way it runs, told by
//! the coordinates of its points.

use vstd::prelude::*;

use crate::geom::edge_end;
use crate::geom::edge_winding;
use crate::geom::on_border;
use crate::geom::on_segment;
use crate::geom::turn;
use crate::geom::winding;
use crate::geom::Point;
use crate::geom::ShapeView;

verus! {

/// On which side of `p` the way from `a` to `b` passes: positive where it passes counter-clockwise
/// around `p`, negative where it passes clockwise, zero where the three lie on one line.
pub open spec fn side(a: Point, b: Point, p: Point) -> int {
    (a.x - p.x) * (b.y - p.y) - (a.y - p.y) * (b.x - p.x)
}

/// `p` lies on the straight line between `a` and `b`, ends included.
pub open spec fn lies_between(a: Point, b: Point, p: Point) -> bool {
    &&& side(a, b, p) == 0
    &&& (a.x <= p.x || b.x <= p.x) && (p.x <= a.x || p.x <= b.x)
    &&& (a.y <= p.y || b.y <= p.y) && (p.y <= a.y || p.y <= b.y)
}

/// The corner behind the `i`th one, around the polygon.
pub open spec fn next_corner(pts: Seq<Point>, i: int) -> Point {
    if i == pts.len() - 1 {
        pts[0]
    } else {
        pts[i + 1]
    }
}

/// A polygon with the corners `pts` covers `p`.
pub open spec fn covers(pts: Seq<Point>, p: Point) -> bool {
    (ShapeView::Poly { pts }).contains(p)
}

/// The two ways to tell the side agree.
proof fn lemma_side(a: Point, b: Point, p: Point)
    ensures
        turn(a, b, p) == side(a, b, p),
        side(b, a, p) == -side(a, b, p),
        side(b, p, a) == side(a, b, p),
{
    let (ax, ay) = (a.x as int, a.y as int);
    let (bx, by) = (b.x as int, b.y as int);
    let (px, py) = (p.x as int, p.y as int);
    assert((bx - ax) * (py - ay) - (px - ax) * (by - ay) == (ax - px) * (by - py) - (ay - py) * (bx
        - px)) by (nonlinear_arith);
    assert((bx - px) * (ay - py) - (by - py) * (ax - px) == -((ax - px) * (by - py) - (ay - py) * (
    bx - px))) by (nonlinear_arith);
    assert((bx - ax) * (py - ay) - (by - ay) * (px - ax) == (ax - px) * (by - py) - (ay - py) * (bx
        - px)) by (nonlinear_arith);
}

/// The two ways to tell the points of a line agree.
proof fn lemma_between(a: Point, b: Point, p: Point)
    ensures
        on_segment(a, b, p) == lies_between(a, b, p),
        lies_between(a, b, p) == lies_between(b, a, p),
{
    lemma_side(a, b, p);
}

/// What the way along `way` adds to the winding number around `p`.
#[verifier::opaque]
spec fn run(way: Seq<Point>, p: Point) -> int
    decreases way.len(),
{
    if way.len() < 2 {
        0
    } else {
        run(way.drop_last(), p) + edge_winding(way[way.len() - 2], way.last(), p)
    }
}

/// `p` lies on the way along `way`.
#[verifier::opaque]
spec fn on_way(way: Seq<Point>, p: Point) -> bool {
    exists|i: int|
        0 <= i < way.len() - 1 && lies_between(#[trigger] way[i], way[i + 1], p)
}

/// The way around a polygon.
spec fn round(pts: Seq<Point>) -> Seq<Point> {
    pts.push(pts[0])
}

/// [`covers`], without its definition.
#[verifier::opaque]
spec fn inside(pts: Seq<Point>, p: Point) -> bool {
    covers(pts, p)
}

/// [`lemma_round`], without the definition of what a polygon covers.
proof fn lemma_inside(pts: Seq<Point>, p: Point)
    requires
        pts.len() > 0,
    ensures
        inside(pts, p) == (on_way(round(pts), p) || run(round(pts), p) != 0),
{
    reveal(inside);
    lemma_round(pts, p);
}

/// A polygon covers what lies on the way around it, and what that way winds around.
proof fn lemma_round(pts: Seq<Point>, p: Point)
    requires
        pts.len() > 0,
    ensures
        covers(pts, p) == (on_way(round(pts), p) || run(round(pts), p) != 0),
{
    reveal(on_way);
    let way = round(pts);
    lemma_run_winding(pts, p, pts.len());
    assert(way.take(way.len() as int) =~= way);
    if on_border(pts, p) {
        let i = choose|i: int|
            0 <= i < pts.len() && on_segment(#[trigger] pts[i], edge_end(pts, i), p);
        lemma_between(pts[i], edge_end(pts, i), p);
        assert(way[i] == pts[i] && way[i + 1] == edge_end(pts, i));
        assert(lies_between(way[i], way[i + 1], p));
    }
    if on_way(way, p) {
        let i = choose|i: int|
            0 <= i < way.len() - 1 && lies_between(#[trigger] way[i], way[i + 1], p);
        assert(way[i] == pts[i] && way[i + 1] == edge_end(pts, i));
        lemma_between(pts[i], edge_end(pts, i), p);
        assert(on_segment(pts[i], edge_end(pts, i), p));
    }
}

/// The winding number of the first edges is that of the way along them.
proof fn lemma_run_winding(pts: Seq<Point>, p: Point, n: nat)
    requires
        n <= pts.len(),
        pts.len() > 0,
    ensures
        winding(pts, p, n) == run(round(pts).take(n as int + 1), p),
    decreases n,
{
    reveal_with_fuel(run, 1);
    let way = round(pts).take(n as int + 1);
    if n > 0 {
        lemma_run_winding(pts, p, (n - 1) as nat);
        assert(way.drop_last() =~= round(pts).take(n as int));
        assert(way[n - 1] == pts[n - 1]);
        assert(way[n as int] == edge_end(pts, n - 1));
    }
}

/// A way can be walked in two parts.
proof fn lemma_run_split(way: Seq<Point>, p: Point, i: int)
    requires
        0 <= i < way.len(),
    ensures
        run(way, p) == run(way.take(i + 1), p) + run(way.skip(i), p),
    decreases way.len(),
{
    reveal_with_fuel(run, 1);
    if i == way.len() - 1 {
        assert(way.take(i + 1) =~= way);
    } else {
        let short = way.drop_last();
        lemma_run_split(short, p, i);
        assert(short.take(i + 1) =~= way.take(i + 1));
        assert(way.skip(i).drop_last() =~= short.skip(i));
    }
}

/// The way of two points.
proof fn lemma_run_two(a: Point, b: Point, p: Point)
    ensures
        run(seq![a, b], p) == edge_winding(a, b, p),
{
    reveal_with_fuel(run, 2);
    assert(seq![a, b].drop_last() =~= seq![a]);
}

/// An edge that is walked back adds the opposite.
proof fn lemma_edge_back(a: Point, b: Point, p: Point)
    ensures
        edge_winding(b, a, p) == -edge_winding(a, b, p),
{
    lemma_side(a, b, p);
    lemma_side(b, a, p);
}

/// A way that is walked back adds the opposite.
proof fn lemma_run_back(way: Seq<Point>, p: Point)
    ensures
        run(way.reverse(), p) == -run(way, p),
        on_way(way.reverse(), p) == on_way(way, p),
    decreases way.len(),
{
    reveal_with_fuel(run, 1);
    reveal(on_way);
    let back = way.reverse();
    if way.len() >= 2 {
        let n = way.len() as int;
        let short = way.drop_last();
        lemma_run_back(short, p);
        lemma_run_split(back, p, 1);
        assert(back.take(2) =~= seq![way[n - 1], way[n - 2]]);
        lemma_run_two(way[n - 1], way[n - 2], p);
        lemma_edge_back(way[n - 2], way[n - 1], p);
        assert(back.skip(1) =~= short.reverse());
    }
    if on_way(way, p) {
        let i = choose|i: int|
            0 <= i < way.len() - 1 && lies_between(#[trigger] way[i], way[i + 1], p);
        let j = way.len() - 2 - i;
        lemma_between(way[i], way[i + 1], p);
        assert(back[j] == way[i + 1] && back[j + 1] == way[i]);
        assert(lies_between(back[j], back[j + 1], p));
    }
    if on_way(back, p) {
        let i = choose|i: int|
            0 <= i < back.len() - 1 && lies_between(#[trigger] back[i], back[i + 1], p);
        let j = way.len() - 2 - i;
        lemma_between(back[i], back[i + 1], p);
        assert(way[j] == back[i + 1] && way[j + 1] == back[i]);
        assert(lies_between(way[j], way[j + 1], p));
    }
}

/// The way lies on a way in two parts where it lies on one of them.
proof fn lemma_on_way_split(way: Seq<Point>, p: Point, i: int)
    requires
        0 <= i < way.len(),
    ensures
        on_way(way, p) == (on_way(way.take(i + 1), p) || on_way(way.skip(i), p)),
{
    reveal(on_way);
    let left = way.take(i + 1);
    let right = way.skip(i);
    if on_way(way, p) {
        let k = choose|k: int|
            0 <= k < way.len() - 1 && lies_between(#[trigger] way[k], way[k + 1], p);
        if k < i {
            assert(lies_between(left[k], left[k + 1], p));
        } else {
            assert(lies_between(right[k - i], right[k - i + 1], p));
        }
    }
    if on_way(left, p) {
        let k = choose|k: int|
            0 <= k < left.len() - 1 && lies_between(#[trigger] left[k], left[k + 1], p);
        assert(lies_between(way[k], way[k + 1], p));
    }
    if on_way(right, p) {
        let k = choose|k: int|
            0 <= k < right.len() - 1 && lies_between(#[trigger] right[k], right[k + 1], p);
        assert(lies_between(way[k + i], way[k + i + 1], p));
    }
}

/// Nothing lies on a way of one point, and it adds nothing.
proof fn lemma_way_one(way: Seq<Point>, p: Point)
    requires
        way.len() < 2,
    ensures
        !on_way(way, p),
        run(way, p) == 0,
{
    reveal_with_fuel(run, 1);
    reveal(on_way);
}

/// The points on a way of two points.
proof fn lemma_on_way_two(a: Point, b: Point, p: Point)
    ensures
        on_way(seq![a, b], p) == lies_between(a, b, p),
{
    reveal(on_way);
    let way = seq![a, b];
    if on_way(way, p) {
        let k = choose|k: int|
            0 <= k < way.len() - 1 && lies_between(#[trigger] way[k], way[k + 1], p);
        assert(k == 0);
    }
    if lies_between(a, b, p) {
        assert(lies_between(way[0], way[1], p));
    }
}

/// A way is what comes before one of its edges, that edge, and what comes behind it.
proof fn lemma_way_edge(way: Seq<Point>, p: Point, i: int)
    requires
        1 <= i < way.len(),
    ensures
        run(way, p) == run(way.take(i), p) + edge_winding(way[i - 1], way[i], p) + run(
            way.skip(i),
            p,
        ),
        on_way(way, p) == (on_way(way.take(i), p) || lies_between(way[i - 1], way[i], p) || on_way(
            way.skip(i),
            p,
        )),
{
    lemma_run_split(way, p, i - 1);
    lemma_on_way_split(way, p, i - 1);
    let tail = way.skip(i - 1);
    lemma_run_split(tail, p, 1);
    lemma_on_way_split(tail, p, 1);
    assert(tail.take(2) =~= seq![way[i - 1], way[i]]);
    assert(tail.skip(1) =~= way.skip(i));
    lemma_run_two(way[i - 1], way[i], p);
    lemma_on_way_two(way[i - 1], way[i], p);
}

/// A polygon covers its corners and its edges.
pub proof fn law_polygon_border(pts: Seq<Point>, i: int, p: Point)
    requires
        0 <= i < pts.len(),
        lies_between(pts[i], next_corner(pts, i), p),
    ensures
        covers(pts, p),
{
    lemma_between(pts[i], edge_end(pts, i), p);
    assert(on_segment(pts[i], edge_end(pts, i), p));
}

/// At which of its corners a polygon starts is of no account.
pub proof fn law_polygon_start(pts: Seq<Point>, p: Point)
    requires
        pts.len() > 0,
    ensures
        covers(pts.skip(1).push(pts[0]), p) == covers(pts, p),
{
    let turned = pts.skip(1).push(pts[0]);
    let way = round(pts);
    let other = round(turned);
    if pts.len() > 1 {
        let n = pts.len() as int;
        assert(run(way, p) == run(other, p) && on_way(way, p) == on_way(other, p)) by {
            lemma_way_edge(way, p, 1);
            lemma_way_one(way.take(1), p);
            lemma_way_edge(other, p, n);
            lemma_way_one(other.skip(n), p);
            assert(way.skip(1) =~= other.take(n));
        }
        lemma_round(pts, p);
        lemma_round(turned, p);
    } else {
        assert(turned =~= pts);
    }
}

/// Which way around the corners of a polygon are given is of no account.
pub proof fn law_polygon_reversed(pts: Seq<Point>, p: Point)
    requires
        pts.len() > 0,
    ensures
        covers(pts.reverse(), p) == covers(pts, p),
{
    let back = pts.reverse();
    let way = round(back);
    let other = round(pts).reverse();
    if pts.len() > 1 {
        let n = pts.len() as int;
        // The way back starts at the first corner, and the way around the reversed corners at the
        // last one.
        assert(run(way, p) == run(other, p) && on_way(way, p) == on_way(other, p)) by {
            lemma_way_edge(way, p, n);
            lemma_way_one(way.skip(n), p);
            lemma_way_edge(other, p, 1);
            lemma_way_one(other.take(1), p);
            assert(way.take(n) =~= other.skip(1));
        }
        assert(run(other, p) == -run(round(pts), p) && on_way(other, p) == on_way(
            round(pts),
            p,
        )) by {
            lemma_run_back(round(pts), p);
        }
        lemma_round(pts, p);
        lemma_round(back, p);
    } else {
        assert(back =~= pts);
    }
}

/// An identity of six numbers.
proof fn lemma_apart(bx: int, by: int, mx: int, my: int, px: int, py: int)
    ensures
        (bx - mx) * (py - my) - (by - my) * (px - mx) == bx * py - by * px - (mx * py - my * px) - (
        bx * my - by * mx),
{
    assert((bx - mx) * (py - my) == bx * py - bx * my - mx * py + mx * my) by (nonlinear_arith);
    assert((by - my) * (px - mx) == by * px - by * mx - my * px + mx * my) by (nonlinear_arith);
}

/// Another identity of six numbers.
proof fn lemma_three_sum(ux: int, uy: int, vx: int, vy: int, wx: int, wy: int)
    ensures
        uy * (vx * wy - vy * wx) + vy * (wx * uy - wy * ux) + wy * (ux * vy - uy * vx) == 0,
{
    assert(uy * (vx * wy - vy * wx) == uy * vx * wy - uy * vy * wx) by (nonlinear_arith);
    assert(vy * (wx * uy - wy * ux) == uy * vy * wx - ux * vy * wy) by (nonlinear_arith);
    assert(wy * (ux * vy - uy * vx) == ux * vy * wy - uy * vx * wy) by (nonlinear_arith);
}

/// Three ways around `p` from points on one side of it: what holds of the first two holds of both
/// together.
proof fn lemma_side_trans(a: Point, b: Point, c: Point, p: Point)
    requires
        side(a, b, p) > 0,
        side(b, c, p) > 0,
        (a.y > p.y && b.y > p.y && c.y > p.y) || (a.y < p.y && b.y < p.y && c.y < p.y),
    ensures
        side(a, c, p) > 0,
{
    let (ux, uy) = (a.x - p.x, a.y - p.y);
    let (vx, vy) = (b.x - p.x, b.y - p.y);
    let (wx, wy) = (c.x - p.x, c.y - p.y);
    let uv = ux * vy - uy * vx;
    let vw = vx * wy - vy * wx;
    let uw = ux * wy - uy * wx;
    lemma_three_sum(ux, uy, vx, vy, wx, wy);
    assert(wx * uy - wy * ux == -uw) by (nonlinear_arith)
        requires
            uw == ux * wy - uy * wx,
    ;
    assert(vy * (-uw) == -(vy * uw)) by (nonlinear_arith);
    if uy > 0 {
        assert(wy * uv > 0 && uy * vw > 0) by (nonlinear_arith)
            requires
                wy > 0,
                uy > 0,
                uv > 0,
                vw > 0,
        ;
        assert(uw > 0) by (nonlinear_arith)
            requires
                vy > 0,
                vy * uw > 0,
        ;
    } else {
        assert(wy * uv < 0 && uy * vw < 0) by (nonlinear_arith)
            requires
                wy < 0,
                uy < 0,
                uv > 0,
                vw > 0,
        ;
        assert(uw > 0) by (nonlinear_arith)
            requires
                vy < 0,
                vy * uw < 0,
        ;
    }
}

/// A way that stays on one side of `p` and passes it on the left all the time, does not come back.
proof fn lemma_no_return(pts: Seq<Point>, p: Point, i: int)
    requires
        1 <= i < pts.len(),
        forall|k: int| 0 <= k < pts.len() - 1 ==> side(#[trigger] pts[k], pts[k + 1], p) > 0,
        (forall|k: int| 0 <= k < pts.len() ==> (#[trigger] pts[k]).y > p.y) || (forall|k: int|
            0 <= k < pts.len() ==> (#[trigger] pts[k]).y < p.y),
    ensures
        side(pts[0], pts[i], p) > 0,
    decreases i,
{
    assert(side(pts[i - 1], pts[i - 1 + 1], p) > 0);
    if i > 1 {
        lemma_no_return(pts, p, i - 1);
        lemma_side_trans(pts[0], pts[i - 1], pts[i], p);
    }
}

/// A polygon around `p` has corners above `p` and corners that are not.
proof fn lemma_both_sides(pts: Seq<Point>, p: Point)
    requires
        pts.len() > 0,
        forall|i: int|
            0 <= i < pts.len() ==> side(#[trigger] pts[i], next_corner(pts, i), p) > 0,
    ensures
        exists|i: int| 0 <= i < pts.len() && (#[trigger] pts[i]).y > p.y,
        exists|i: int| 0 <= i < pts.len() && (#[trigger] pts[i]).y <= p.y,
{
    let n = pts.len() as int;
    assert(side(pts[n - 1], next_corner(pts, n - 1), p) > 0);
    assert(side(pts[0], next_corner(pts, 0), p) > 0);
    assert forall|k: int| 0 <= k < n - 1 implies side(#[trigger] pts[k], pts[k + 1], p) > 0 by {
        assert(side(pts[k], next_corner(pts, k), p) > 0);
    }
    if n == 1 {
        lemma_side(pts[0], pts[0], p);
    } else {
        if forall|i: int| 0 <= i < n ==> (#[trigger] pts[i]).y > p.y {
            lemma_no_return(pts, p, n - 1);
            lemma_side(pts[0], pts[n - 1], p);
        }
        if forall|i: int| 0 <= i < n ==> (#[trigger] pts[i]).y <= p.y {
            assert forall|i: int| 0 <= i < n implies (#[trigger] pts[i]).y < p.y by {
                let a = pts[i];
                let b = next_corner(pts, i);
                let before = if i == 0 {
                    n - 1
                } else {
                    i - 1
                };
                let z = pts[before];
                assert(next_corner(pts, before) == a);
                assert(side(a, b, p) > 0);
                assert(side(z, a, p) > 0);
                assert(b.y <= p.y && z.y <= p.y);
                if a.y == p.y {
                    let (ux, vy, vx) = (a.x - p.x, b.y - p.y, b.x - p.x);
                    let (zx, zy) = (z.x - p.x, z.y - p.y);
                    assert(ux * vy - 0 * vx > 0 && zx * 0 - zy * ux > 0);
                    assert(false) by (nonlinear_arith)
                        requires
                            ux * vy - 0 * vx > 0,
                            zx * 0 - zy * ux > 0,
                            vy <= 0,
                            zy <= 0,
                    ;
                }
            }
            lemma_no_return(pts, p, n - 1);
            lemma_side(pts[0], pts[n - 1], p);
        }
    }
}

/// Between a corner that is not above `p` and one that is, some edge rises past `p`.
proof fn lemma_rising(way: Seq<Point>, p: Point, i: int, j: int) -> (k: int)
    requires
        0 <= i <= j < way.len(),
        way[i].y <= p.y,
        way[j].y > p.y,
    ensures
        i <= k < j,
        way[k].y <= p.y < way[k + 1].y,
    decreases j - i,
{
    if way[i + 1].y > p.y {
        i
    } else {
        lemma_rising(way, p, i + 1, j)
    }
}

/// On a way that passes `p` on the left all the time, the edges that rise past `p` count.
proof fn lemma_run_left(way: Seq<Point>, p: Point)
    requires
        forall|i: int| 0 <= i < way.len() - 1 ==> side(#[trigger] way[i], way[i + 1], p) > 0,
    ensures
        run(way, p) >= 0,
        (exists|i: int|
            0 <= i < way.len() - 1 && (#[trigger] way[i]).y <= p.y && way[i + 1].y > p.y) ==> run(
            way,
            p,
        ) > 0,
    decreases way.len(),
{
    reveal_with_fuel(run, 1);
    if way.len() >= 2 {
        let n = way.len() as int;
        let short = way.drop_last();
        assert forall|i: int| 0 <= i < short.len() - 1 implies side(
            #[trigger] short[i],
            short[i + 1],
            p,
        ) > 0 by {
            assert(side(way[i], way[i + 1], p) > 0);
        }
        lemma_run_left(short, p);
        assert(side(way[n - 2], way[n - 2 + 1], p) > 0);
        lemma_side(way[n - 2], way[n - 1], p);
        if exists|i: int|
            0 <= i < way.len() - 1 && (#[trigger] way[i]).y <= p.y && way[i + 1].y > p.y {
            let i = choose|i: int|
                0 <= i < way.len() - 1 && (#[trigger] way[i]).y <= p.y && way[i + 1].y > p.y;
            if i < n - 2 {
                assert(short[i].y <= p.y && short[i + 1].y > p.y);
            }
        }
    }
}

/// A polygon, of however many corners, covers its interior: what all its edges pass on the same
/// side.
pub proof fn law_polygon_interior(pts: Seq<Point>, p: Point)
    requires
        pts.len() > 0,
        (forall|i: int|
            0 <= i < pts.len() ==> side(#[trigger] pts[i], next_corner(pts, i), p) > 0) || (forall|
            i: int,
        | 0 <= i < pts.len() ==> side(#[trigger] pts[i], next_corner(pts, i), p) < 0),
    ensures
        covers(pts, p),
{
    if side(pts[0], next_corner(pts, 0), p) > 0 {
        lemma_interior_left(pts, p);
    } else {
        let back = pts.reverse();
        let n = pts.len() as int;
        assert forall|i: int| 0 <= i < back.len() implies side(
            #[trigger] back[i],
            next_corner(back, i),
            p,
        ) > 0 by {
            let j = if i == n - 1 {
                n - 1
            } else {
                n - 2 - i
            };
            assert(side(pts[j], next_corner(pts, j), p) < 0);
            lemma_side(pts[j], next_corner(pts, j), p);
            assert(back[i] == next_corner(pts, j) && next_corner(back, i) == pts[j]);
        }
        lemma_interior_left(back, p);
        law_polygon_reversed(pts, p);
    }
}

/// [`law_polygon_interior`], counter-clockwise.
proof fn lemma_interior_left(pts: Seq<Point>, p: Point)
    requires
        pts.len() > 0,
        forall|i: int|
            0 <= i < pts.len() ==> side(#[trigger] pts[i], next_corner(pts, i), p) > 0,
    ensures
        covers(pts, p),
{
    let way = round(pts);
    lemma_round(pts, p);
    lemma_both_sides(pts, p);
    assert forall|i: int| 0 <= i < way.len() - 1 implies side(#[trigger] way[i], way[i + 1], p)
        > 0 by {
        assert(side(pts[i], next_corner(pts, i), p) > 0);
        assert(way[i] == pts[i] && way[i + 1] == next_corner(pts, i));
    }
    lemma_run_left(way, p);
    let low = choose|i: int| 0 <= i < pts.len() && (#[trigger] pts[i]).y <= p.y;
    let high = choose|i: int| 0 <= i < pts.len() && (#[trigger] pts[i]).y > p.y;
    assert(way[low] == pts[low] && way[high] == pts[high]);
    let k = if low <= high {
        lemma_rising(way, p, low, high)
    } else if pts[0].y > p.y {
        lemma_rising(way, p, low, pts.len() as int)
    } else {
        lemma_rising(way, p, 0, high)
    };
    assert(way[k].y <= p.y && way[k + 1].y > p.y);
}

/// What lies beyond a polygon is not covered: each edge lies above `p`, or below it, or to the left
/// of it.
pub proof fn law_polygon_escape(pts: Seq<Point>, p: Point)
    requires
        forall|i: int|
            #![trigger pts[i]]
            0 <= i < pts.len() ==> {
                let (a, b) = (pts[i], next_corner(pts, i));
                (a.y > p.y && b.y > p.y) || (a.y < p.y && b.y < p.y) || (a.x < p.x && b.x < p.x)
            },
    ensures
        !covers(pts, p),
{
    assert forall|i: int| 0 <= i < pts.len() implies edge_winding(
        #[trigger] pts[i],
        edge_end(pts, i),
        p,
    ) == 0 && !on_segment(pts[i], edge_end(pts, i), p) by {
        let (a, b) = (pts[i], edge_end(pts, i));
        if a.x < p.x && b.x < p.x {
            let (ux, uy) = (p.x - a.x, a.y - p.y);
            let (vx, vy) = (p.x - b.x, b.y - p.y);
            lemma_side(a, b, p);
            assert(turn(a, b, p) == (-ux) * vy - uy * (-vx));
            if a.y <= p.y < b.y {
                assert((-ux) * vy - uy * (-vx) < 0) by (nonlinear_arith)
                    requires
                        ux > 0,
                        vx > 0,
                        uy <= 0,
                        vy > 0,
                ;
            } else if b.y <= p.y < a.y {
                assert((-ux) * vy - uy * (-vx) > 0) by (nonlinear_arith)
                    requires
                        ux > 0,
                        vx > 0,
                        uy > 0,
                        vy <= 0,
                ;
            }
        }
    }
    lemma_no_winding(pts, p, pts.len());
}

/// Edges that add nothing do not wind.
proof fn lemma_no_winding(pts: Seq<Point>, p: Point, n: nat)
    requires
        n <= pts.len(),
        forall|i: int|
            0 <= i < pts.len() ==> edge_winding(#[trigger] pts[i], edge_end(pts, i), p) == 0,
    ensures
        winding(pts, p, n) == 0,
    decreases n,
{
    if n > 0 {
        lemma_no_winding(pts, p, (n - 1) as nat);
        assert(edge_winding(pts[n - 1], edge_end(pts, n - 1), p) == 0);
    }
}

/// The three sides of a triangle with one corner above `p` and two that are not, or the other way
/// round: where the two that rise or fall past `p` wind around it, so does the third.
proof fn lemma_one_apart(a: Point, b: Point, c: Point, p: Point)
    requires
        (a.y > p.y && b.y <= p.y && c.y <= p.y) || (a.y <= p.y && b.y > p.y && c.y > p.y),
        !lies_between(a, b, p),
        !lies_between(b, c, p),
        !lies_between(c, a, p),
    ensures
        side(a, b, p) != 0,
        side(c, a, p) != 0,
        side(a, b, p) > 0 && side(c, a, p) > 0 ==> side(b, c, p) > 0,
        side(a, b, p) < 0 && side(c, a, p) < 0 ==> side(b, c, p) < 0,
{
    let (ux, uy) = (a.x - p.x, a.y - p.y);
    let (vx, vy) = (b.x - p.x, b.y - p.y);
    let (wx, wy) = (c.x - p.x, c.y - p.y);
    let uv = ux * vy - uy * vx;
    let vw = vx * wy - vy * wx;
    let wu = wx * uy - wy * ux;
    assert(side(a, b, p) == uv && side(b, c, p) == vw && side(c, a, p) == wu);
    lemma_three_sum(ux, uy, vx, vy, wx, wy);
    lemma_straight(ux, uy, vx, vy);
    lemma_straight(ux, uy, wx, wy);
    lemma_side(a, c, p);
    if uy > 0 {
        if uv > 0 && wu > 0 {
            assert(vw >= 0) by (nonlinear_arith)
                requires
                    uy > 0,
                    vy <= 0,
                    wy <= 0,
                    uv > 0,
                    wu > 0,
                    uy * vw + vy * wu + wy * uv == 0,
            ;
            if vw == 0 {
                assert(vy == 0 && wy == 0) by (nonlinear_arith)
                    requires
                        vy <= 0,
                        wy <= 0,
                        uv > 0,
                        wu > 0,
                        uy * 0 + vy * wu + wy * uv == 0,
                ;
                assert(wx > 0 && vx < 0) by (nonlinear_arith)
                    requires
                        uy > 0,
                        ux * 0 - uy * vx > 0,
                        wx * uy - 0 * ux > 0,
                ;
            }
        }
        if uv < 0 && wu < 0 {
            assert(vw <= 0) by (nonlinear_arith)
                requires
                    uy > 0,
                    vy <= 0,
                    wy <= 0,
                    uv < 0,
                    wu < 0,
                    uy * vw + vy * wu + wy * uv == 0,
            ;
            if vw == 0 {
                assert(vy == 0 && wy == 0) by (nonlinear_arith)
                    requires
                        vy <= 0,
                        wy <= 0,
                        uv < 0,
                        wu < 0,
                        uy * 0 + vy * wu + wy * uv == 0,
                ;
                assert(wx < 0 && vx > 0) by (nonlinear_arith)
                    requires
                        uy > 0,
                        ux * 0 - uy * vx < 0,
                        wx * uy - 0 * ux < 0,
                ;
            }
        }
    } else {
        if uv > 0 && wu > 0 {
            assert(vw > 0) by (nonlinear_arith)
                requires
                    uy <= 0,
                    vy > 0,
                    wy > 0,
                    uv > 0,
                    wu > 0,
                    uy * vw + vy * wu + wy * uv == 0,
            ;
        }
        if uv < 0 && wu < 0 {
            assert(vw < 0) by (nonlinear_arith)
                requires
                    uy <= 0,
                    vy > 0,
                    wy > 0,
                    uv < 0,
                    wu < 0,
                    uy * vw + vy * wu + wy * uv == 0,
            ;
        }
    }
}

/// Two places on one line through the origin, one above and one not, have the origin between them.
proof fn lemma_straight(ux: int, uy: int, vx: int, vy: int)
    requires
        (uy > 0 && vy <= 0) || (uy <= 0 && vy > 0),
    ensures
        ux * vy - uy * vx == 0 ==> (ux <= 0 || vx <= 0) && (ux >= 0 || vx >= 0),
        ux * vy - uy * vx == 0 <==> vx * uy - vy * ux == 0,
{
    assert(ux * vy - uy * vx == 0 ==> (ux <= 0 || vx <= 0) && (ux >= 0 || vx >= 0))
        by (nonlinear_arith)
        requires
            (uy > 0 && vy <= 0) || (uy <= 0 && vy > 0),
    ;
    assert(ux * vy - uy * vx == -(vx * uy - vy * ux)) by (nonlinear_arith);
}

/// A triangle covers its sides, and what all three of them pass on the same side, and nothing else.
pub proof fn law_triangle(a: Point, b: Point, c: Point, p: Point)
    ensures
        covers(seq![a, b, c], p) <==> {
            ||| lies_between(a, b, p)
            ||| lies_between(b, c, p)
            ||| lies_between(c, a, p)
            ||| side(a, b, p) > 0 && side(b, c, p) > 0 && side(c, a, p) > 0
            ||| side(a, b, p) < 0 && side(b, c, p) < 0 && side(c, a, p) < 0
        },
{
    let pts = seq![a, b, c];
    assert(next_corner(pts, 0) == b && next_corner(pts, 1) == c && next_corner(pts, 2) == a);
    if lies_between(a, b, p) {
        law_polygon_border(pts, 0, p);
    } else if lies_between(b, c, p) {
        law_polygon_border(pts, 1, p);
    } else if lies_between(c, a, p) {
        law_polygon_border(pts, 2, p);
    } else {
        if (side(a, b, p) > 0 && side(b, c, p) > 0 && side(c, a, p) > 0) || (side(a, b, p) < 0
            && side(b, c, p) < 0 && side(c, a, p) < 0) {
            assert forall|i: int| 0 <= i < 3 implies side(
                #[trigger] pts[i],
                next_corner(pts, i),
                p,
            ) == (if i == 0 {
                side(a, b, p)
            } else if i == 1 {
                side(b, c, p)
            } else {
                side(c, a, p)
            }) by {}
            law_polygon_interior(pts, p);
        }
        if covers(pts, p) {
            assert(edge_end(pts, 0) == b && edge_end(pts, 1) == c && edge_end(pts, 2) == a);
            lemma_between(a, b, p);
            lemma_between(b, c, p);
            lemma_between(c, a, p);
            assert(!on_border(pts, p));
            reveal_with_fuel(winding, 4);
            lemma_side(a, b, p);
            lemma_side(b, c, p);
            lemma_side(c, a, p);
            let (ha, hb, hc) = (a.y > p.y, b.y > p.y, c.y > p.y);
            if ha != hb && hb == hc {
                lemma_one_apart(a, b, c, p);
            }
            if hb != hc && hc == ha {
                lemma_one_apart(b, c, a, p);
            }
            if hc != ha && ha == hb {
                lemma_one_apart(c, a, b, p);
            }
        }
    }
}

/// What the way around a triangle adds, and what lies on it.
proof fn lemma_triangle_way(a: Point, b: Point, c: Point, p: Point)
    ensures
        run(round(seq![a, b, c]), p) == edge_winding(a, b, p) + edge_winding(b, c, p)
            + edge_winding(c, a, p),
        on_way(round(seq![a, b, c]), p) == (lies_between(a, b, p) || lies_between(b, c, p)
            || lies_between(c, a, p)),
{
    let way = round(seq![a, b, c]);
    lemma_way_edge(way, p, 1);
    lemma_way_one(way.take(1), p);
    let tail = way.skip(1);
    assert(tail =~= seq![b, c, a]);
    lemma_way_edge(tail, p, 1);
    lemma_way_one(tail.take(1), p);
    assert(tail.skip(1) =~= seq![c, a]);
    lemma_run_two(c, a, p);
    lemma_on_way_two(c, a, p);
}

/// What another corner does to the way around a polygon.
proof fn lemma_corner_way(pts: Seq<Point>, i: int, corner: Point, p: Point)
    requires
        1 <= i <= pts.len(),
    ensures
        ({
            let (a, b) = (pts[i - 1], next_corner(pts, i - 1));
            let way = round(pts);
            let more = round(pts.insert(i, corner));
            let rest = run(way.take(i), p) + run(way.skip(i), p);
            let on_rest = on_way(way.take(i), p) || on_way(way.skip(i), p);
            &&& run(way, p) == rest + edge_winding(a, b, p)
            &&& run(more, p) == rest + edge_winding(a, corner, p) + edge_winding(corner, b, p)
            &&& on_way(way, p) == (on_rest || lies_between(a, b, p))
            &&& on_way(more, p) == (on_rest || lies_between(a, corner, p) || lies_between(
                corner,
                b,
                p,
            ))
        }),
{
    let way = round(pts);
    let more = round(pts.insert(i, corner));
    lemma_way_edge(way, p, i);
    lemma_way_edge(more, p, i);
    assert(more.take(i) =~= way.take(i));
    let tail = more.skip(i);
    lemma_way_edge(tail, p, 1);
    lemma_way_one(tail.take(1), p);
    assert(tail.skip(1) =~= way.skip(i));
    assert(tail[0] == corner && tail[1] == way[i]);
}

/// The parts that the ways around a polygon, around the polygon with another corner, and around the
/// triangle of that corner have in common: which of them `p` lies on, and what they add.
proof fn lemma_corner_parts(pts: Seq<Point>, i: int, corner: Point, p: Point) -> (r: (
    (bool, bool, bool, bool),
    (int, int, int, int),
))
    requires
        1 <= i <= pts.len(),
    ensures
        inside(pts, p) == (r.0.0 || r.0.1 || r.1.0 + r.1.1 != 0),
        inside(pts.insert(i, corner), p) == (r.0.0 || r.0.2 || r.0.3 || r.1.0 + r.1.2 + r.1.3 != 0),
        inside(seq![pts[i - 1], corner, next_corner(pts, i - 1)], p) == (r.0.1 || r.0.2 || r.0.3
            || r.1.2 + r.1.3 - r.1.1 != 0),
{
    let (a, b) = (pts[i - 1], next_corner(pts, i - 1));
    let way = round(pts);
    let rest = run(way.take(i), p) + run(way.skip(i), p);
    let on_rest = on_way(way.take(i), p) || on_way(way.skip(i), p);
    let on = (
        on_rest,
        lies_between(a, b, p),
        lies_between(a, corner, p),
        lies_between(corner, b, p),
    );
    let add = (
        rest,
        edge_winding(a, b, p),
        edge_winding(a, corner, p),
        edge_winding(corner, b, p),
    );
    lemma_corner_way(pts, i, corner, p);
    assert(inside(pts, p) == (on.0 || on.1 || add.0 + add.1 != 0)) by {
        lemma_inside(pts, p);
    }
    assert(inside(pts.insert(i, corner), p) == (on.0 || on.2 || on.3 || add.0 + add.2 + add.3 != 0))
        by {
        lemma_inside(pts.insert(i, corner), p);
    }
    assert(inside(seq![a, corner, b], p) == (on.1 || on.2 || on.3 || add.2 + add.3 - add.1 != 0))
        by {
        lemma_inside(seq![a, corner, b], p);
        lemma_triangle_way(a, corner, b, p);
        lemma_edge_back(a, b, p);
        lemma_between(a, b, p);
    }
    (on, add)
}

/// Another corner changes what a polygon covers only inside the triangle of that corner and its
/// neighbours. Where the polygon without it, or the polygon with it, does not cover `p`, it is that
/// triangle that makes the difference.
pub proof fn law_polygon_corner(pts: Seq<Point>, i: int, corner: Point, p: Point)
    requires
        1 <= i <= pts.len(),
    ensures
        ({
            let more = pts.insert(i, corner);
            let triangle = seq![pts[i - 1], corner, next_corner(pts, i - 1)];
            &&& !covers(triangle, p) ==> covers(more, p) == covers(pts, p)
            &&& !covers(pts, p) ==> covers(more, p) == covers(triangle, p)
            &&& !covers(more, p) ==> covers(pts, p) == covers(triangle, p)
        }),
{
    let parts = lemma_corner_parts(pts, i, corner, p);
    reveal(inside);
}

/// `n` lies between `a` and `b`, in whichever order they are.
spec fn amid(a: int, b: int, n: int) -> bool {
    (a <= n || b <= n) && (n <= a || n <= b)
}

/// Along a line that is not upright, heights lie between where places do.
proof fn lemma_along(bx: int, by: int, mx: int, my: int, px: int, py: int)
    requires
        bx != 0,
        my * bx == by * mx,
        py * bx == by * px,
    ensures
        amid(0, mx, px) ==> amid(0, my, py),
        amid(mx, bx, px) ==> amid(my, by, py),
{
    assert(amid(0, mx, px) ==> amid(0, my, py)) by (nonlinear_arith)
        requires
            bx != 0,
            my * bx == by * mx,
            py * bx == by * px,
    {
        if by >= 0 {
            assert(mx <= px ==> by * mx <= by * px);
            assert(mx >= px ==> by * mx >= by * px);
            assert(0 <= px ==> 0 <= by * px);
            assert(0 >= px ==> 0 >= by * px);
        } else {
            assert(mx <= px ==> by * mx >= by * px);
            assert(mx >= px ==> by * mx <= by * px);
            assert(0 <= px ==> 0 >= by * px);
            assert(0 >= px ==> 0 <= by * px);
        }
        if bx > 0 {
            assert(my * bx <= py * bx ==> my <= py);
            assert(my * bx >= py * bx ==> my >= py);
            assert(0 <= py * bx ==> 0 <= py);
            assert(0 >= py * bx ==> 0 >= py);
        } else {
            assert(my * bx <= py * bx ==> my >= py);
            assert(my * bx >= py * bx ==> my <= py);
            assert(0 <= py * bx ==> 0 >= py);
            assert(0 >= py * bx ==> 0 <= py);
        }
    }
    assert(amid(mx, bx, px) ==> amid(my, by, py)) by (nonlinear_arith)
        requires
            bx != 0,
            my * bx == by * mx,
            py * bx == by * px,
    {
        if by >= 0 {
            assert(mx <= px ==> by * mx <= by * px);
            assert(mx >= px ==> by * mx >= by * px);
            assert(bx <= px ==> by * bx <= by * px);
            assert(bx >= px ==> by * bx >= by * px);
        } else {
            assert(mx <= px ==> by * mx >= by * px);
            assert(mx >= px ==> by * mx <= by * px);
            assert(bx <= px ==> by * bx >= by * px);
            assert(bx >= px ==> by * bx <= by * px);
        }
        if bx > 0 {
            assert(my * bx <= py * bx ==> my <= py);
            assert(my * bx >= py * bx ==> my >= py);
            assert(by * bx <= py * bx ==> by <= py);
            assert(by * bx >= py * bx ==> by >= py);
        } else {
            assert(my * bx <= py * bx ==> my >= py);
            assert(my * bx >= py * bx ==> my <= py);
            assert(by * bx <= py * bx ==> by >= py);
            assert(by * bx >= py * bx ==> by <= py);
        }
    }
}

/// What is in line with a third is in line with each other.
proof fn lemma_in_line(bx: int, by: int, mx: int, my: int, px: int, py: int)
    requires
        mx * by == my * bx,
        mx * py == my * px,
        mx != 0 || my != 0,
    ensures
        bx * py == by * px,
{
    assert(mx * (bx * py - by * px) == 0 && my * (bx * py - by * px) == 0) by (nonlinear_arith)
        requires
            mx * by == my * bx,
            mx * py == my * px,
    ;
    assert(bx * py - by * px == 0) by (nonlinear_arith)
        requires
            mx * (bx * py - by * px) == 0,
            my * (bx * py - by * px) == 0,
            mx != 0 || my != 0,
    ;
}

/// A place between the ends of a line divides it in two.
proof fn lemma_divided(a: Point, b: Point, m: Point, p: Point)
    requires
        lies_between(a, b, m),
    ensures
        lies_between(a, b, p) <==> lies_between(a, m, p) || lies_between(m, b, p),
{
    let (bx, by) = (b.x - a.x, b.y - a.y);
    let (mx, my) = (m.x - a.x, m.y - a.y);
    let (px, py) = (p.x - a.x, p.y - a.y);
    lemma_side(a, b, m);
    lemma_side(a, b, p);
    lemma_side(a, m, p);
    lemma_side(m, b, p);
    assert(bx * my == by * mx);
    assert(side(a, b, p) == bx * py - by * px);
    assert(side(a, m, p) == mx * py - my * px);
    assert(side(m, b, p) == (bx - mx) * (py - my) - (by - my) * (px - mx));
    lemma_apart(bx, by, mx, my, px, py);
    assert(mx * by == my * bx && my * bx == by * mx) by (nonlinear_arith)
        requires
            bx * my == by * mx,
    ;
    if lies_between(a, m, p) {
        if mx != 0 || my != 0 {
            lemma_in_line(bx, by, mx, my, px, py);
        }
    }
    if lies_between(m, b, p) {
        if bx - mx != 0 || by - my != 0 {
            let (cx, cy) = (bx - mx, by - my);
            assert(cx * by == cy * bx) by (nonlinear_arith)
                requires
                    cx == bx - mx,
                    cy == by - my,
                    mx * by == my * bx,
            ;
            assert(cx * (py - my) == cy * (px - mx));
            lemma_in_line(bx, by, cx, cy, px - mx, py - my);
            assert(bx * (py - my) == bx * py - bx * my) by (nonlinear_arith);
            assert(by * (px - mx) == by * px - by * mx) by (nonlinear_arith);
        } else {
            assert(px == bx && py == by);
            assert(bx * by == by * bx) by (nonlinear_arith);
        }
    }
    if lies_between(a, b, p) {
        if bx != 0 || by != 0 {
            assert(bx * py == by * px);
            lemma_in_line(mx, my, bx, by, px, py);
            assert(py * bx == by * px && px * by == bx * py && mx * by == bx * my)
                by (nonlinear_arith)
                requires
                    bx * py == by * px,
                    bx * my == by * mx,
            ;
            if bx != 0 {
                lemma_along(bx, by, mx, my, px, py);
                assert(amid(0, mx, px) || amid(mx, bx, px));
            } else {
                lemma_along(by, bx, my, mx, py, px);
                assert(amid(0, my, py) || amid(my, by, py));
            }
        }
    }
}

/// A corner in the middle of an edge is of no account.
pub proof fn law_polygon_split(pts: Seq<Point>, i: int, m: Point, p: Point)
    requires
        1 <= i <= pts.len(),
        lies_between(pts[i - 1], next_corner(pts, i - 1), m),
    ensures
        covers(pts.insert(i, m), p) == covers(pts, p),
{
    let more = pts.insert(i, m);
    let (a, b) = (pts[i - 1], next_corner(pts, i - 1));
    lemma_divided(a, b, m, p);
    if lies_between(a, b, p) {
        law_polygon_border(pts, i - 1, p);
        assert(more[i - 1] == a && next_corner(more, i - 1) == m);
        assert(more[i] == m && next_corner(more, i) == b);
        if lies_between(a, m, p) {
            law_polygon_border(more, i - 1, p);
        } else {
            law_polygon_border(more, i, p);
        }
    } else {
        law_triangle(a, m, b, p);
        lemma_between(a, b, p);
        lemma_flat(a, m, b, p);
        lemma_side(a, m, b);
        lemma_side(m, b, a);
        lemma_side(a, b, m);
        law_polygon_corner(pts, i, m, p);
    }
}

/// Products do not depend on the order of their factors.
proof fn lemma_swap(ax: int, ay: int, bx: int, by: int, cx: int, cy: int)
    ensures
        ax * by == by * ax,
        ay * bx == bx * ay,
        bx * cy == cy * bx,
        by * cx == cx * by,
        cx * ay == ay * cx,
        cy * ax == ax * cy,
{
    assert(ax * by == by * ax) by (nonlinear_arith);
    assert(ay * bx == bx * ay) by (nonlinear_arith);
    assert(bx * cy == cy * bx) by (nonlinear_arith);
    assert(by * cx == cx * by) by (nonlinear_arith);
    assert(cx * ay == ay * cx) by (nonlinear_arith);
    assert(cy * ax == ax * cy) by (nonlinear_arith);
}

/// The sides of a triangle add up to what they are of each corner.
proof fn lemma_flat(a: Point, b: Point, c: Point, p: Point)
    ensures
        side(a, b, p) + side(b, c, p) + side(c, a, p) == side(a, b, c),
{
    let (ax, ay) = (a.x as int, a.y as int);
    let (bx, by) = (b.x as int, b.y as int);
    let (cx, cy) = (c.x as int, c.y as int);
    let (px, py) = (p.x as int, p.y as int);
    lemma_apart(ax, ay, px, py, bx, by);
    lemma_apart(bx, by, px, py, cx, cy);
    lemma_apart(cx, cy, px, py, ax, ay);
    lemma_apart(ax, ay, cx, cy, bx, by);
    assert((ax - px) * (by - py) - (ay - py) * (bx - px) == ax * by - ay * bx - (px * by - py * bx)
        - (ax * py - ay * px));
    lemma_swap(ax, ay, bx, by, cx, cy);
    lemma_swap(px, py, ax, ay, bx, by);
    lemma_swap(px, py, bx, by, cx, cy);
    lemma_swap(px, py, cx, cy, ax, ay);
}

/// Polygons whose edges add the same, but for a share that evens out around the polygon, or the
/// opposite of it, cover alike.
proof fn lemma_opposed(
    pts: Seq<Point>,
    p: Point,
    others: Seq<Point>,
    q: Point,
    share: spec_fn(Point) -> int,
    n: nat,
)
    requires
        pts.len() == others.len(),
        n <= pts.len(),
        forall|i: int|
            #![trigger pts[i]]
            0 <= i < pts.len() ==> edge_winding(others[i], edge_end(others, i), q) == share(
                edge_end(pts, i),
            ) - share(pts[i]) - edge_winding(pts[i], edge_end(pts, i), p),
    ensures
        n > 0 ==> winding(others, q, n) == share(edge_end(pts, n - 1)) - share(pts[0]) - winding(
            pts,
            p,
            n,
        ),
        n == 0 ==> winding(others, q, n) == 0 && winding(pts, p, n) == 0,
    decreases n,
{
    if n > 0 {
        lemma_opposed(pts, p, others, q, share, (n - 1) as nat);
        assert(edge_winding(others[n - 1], edge_end(others, n - 1), q) == share(
            edge_end(pts, n - 1),
        ) - share(pts[n - 1]) - edge_winding(pts[n - 1], edge_end(pts, n - 1), p));
    }
}

/// Polygons whose edges hold the same have the same border.
proof fn lemma_same_border(pts: Seq<Point>, p: Point, others: Seq<Point>, q: Point)
    requires
        pts.len() == others.len(),
        forall|i: int|
            #![trigger pts[i]]
            0 <= i < pts.len() ==> on_segment(others[i], edge_end(others, i), q) == on_segment(
                pts[i],
                edge_end(pts, i),
                p,
            ),
    ensures
        on_border(others, q) == on_border(pts, p),
{
    if on_border(pts, p) {
        let i = choose|i: int|
            0 <= i < pts.len() && on_segment(#[trigger] pts[i], edge_end(pts, i), p);
        assert(on_segment(others[i], edge_end(others, i), q));
    }
    if on_border(others, q) {
        let i = choose|i: int|
            0 <= i < others.len() && on_segment(#[trigger] others[i], edge_end(others, i), q);
        assert(on_segment(pts[i], edge_end(pts, i), p));
    }
}

/// Whether `v` lies above `p`, as a number.
spec fn above(v: Point, p: Point) -> int {
    if v.y > p.y {
        1
    } else {
        0
    }
}

/// Whether `v` lies above `p` and to the right of it, as a number.
spec fn above_right(v: Point, p: Point) -> int {
    if v.y > p.y && v.x > p.x {
        1
    } else {
        0
    }
}

/// Where a polygon lies is of no account: moved together with a point, it covers the same.
pub proof fn law_polygon_moved(
    pts: Seq<Point>,
    p: Point,
    others: Seq<Point>,
    q: Point,
    dx: int,
    dy: int,
)
    requires
        pts.len() == others.len(),
        forall|i: int|
            0 <= i < pts.len() ==> (#[trigger] others[i]).x == pts[i].x + dx && others[i].y
                == pts[i].y + dy,
        q.x == p.x + dx,
        q.y == p.y + dy,
    ensures
        covers(others, q) == covers(pts, p),
{
    assert forall|i: int| #![trigger pts[i]] 0 <= i < pts.len() implies on_segment(
        others[i],
        edge_end(others, i),
        q,
    ) == on_segment(pts[i], edge_end(pts, i), p) && edge_winding(
        others[i],
        edge_end(others, i),
        q,
    ) == edge_winding(pts[i], edge_end(pts, i), p) by {
        let (a, b) = (pts[i], edge_end(pts, i));
        let (c, d) = (others[i], edge_end(others, i));
        assert(d.x == b.x + dx && d.y == b.y + dy);
        assert(turn(c, d, q) == turn(a, b, p));
    }
    lemma_same_border(pts, p, others, q);
    lemma_same_winding(pts, p, others, q, pts.len());
}

/// Polygons whose edges add the same wind alike.
proof fn lemma_same_winding(pts: Seq<Point>, p: Point, others: Seq<Point>, q: Point, n: nat)
    requires
        pts.len() == others.len(),
        n <= pts.len(),
        forall|i: int|
            #![trigger pts[i]]
            0 <= i < pts.len() ==> edge_winding(others[i], edge_end(others, i), q) == edge_winding(
                pts[i],
                edge_end(pts, i),
                p,
            ),
    ensures
        winding(others, q, n) == winding(pts, p, n),
    decreases n,
{
    if n > 0 {
        lemma_same_winding(pts, p, others, q, (n - 1) as nat);
        assert(edge_winding(others[n - 1], edge_end(others, n - 1), q) == edge_winding(
            pts[n - 1],
            edge_end(pts, n - 1),
            p,
        ));
    }
}

/// A polygon that is mirrored together with a point covers the same.
pub proof fn law_polygon_mirrored(pts: Seq<Point>, p: Point, others: Seq<Point>, q: Point)
    requires
        pts.len() == others.len(),
        forall|i: int|
            0 <= i < pts.len() ==> (#[trigger] others[i]).x == -pts[i].x && others[i].y == pts[i].y,
        q.x == -p.x,
        q.y == p.y,
    ensures
        covers(others, q) == covers(pts, p),
{
    let share = |v: Point| above(v, p);
    assert forall|i: int| #![trigger pts[i]] 0 <= i < pts.len() implies on_segment(
        others[i],
        edge_end(others, i),
        q,
    ) == on_segment(pts[i], edge_end(pts, i), p) && (!on_border(pts, p) ==> edge_winding(
        others[i],
        edge_end(others, i),
        q,
    ) == share(edge_end(pts, i)) - share(pts[i]) - edge_winding(pts[i], edge_end(pts, i), p)) by {
        let (a, b) = (pts[i], edge_end(pts, i));
        let (c, d) = (others[i], edge_end(others, i));
        assert(d.x == -b.x && d.y == b.y);
        lemma_side(a, b, p);
        lemma_side(c, d, q);
        let (ux, uy) = (a.x - p.x, a.y - p.y);
        let (vx, vy) = (b.x - p.x, b.y - p.y);
        assert((-ux) * vy - uy * (-vx) == -(ux * vy - uy * vx)) by (nonlinear_arith);
        assert(side(c, d, q) == (-ux) * vy - uy * (-vx));
        if !on_border(pts, p) {
            assert(!on_segment(a, b, p));
            if (uy > 0 && vy <= 0) || (uy <= 0 && vy > 0) {
                lemma_straight(ux, uy, vx, vy);
            }
        }
    }
    lemma_same_border(pts, p, others, q);
    if !on_border(pts, p) {
        lemma_opposed(pts, p, others, q, share, pts.len());
        if pts.len() > 0 {
            assert(edge_end(pts, pts.len() - 1) == pts[0]);
        }
    }
}

/// What an edge adds, told by rows and told by columns.
proof fn lemma_transposed_edge(a: Point, b: Point, p: Point, c: Point, d: Point, q: Point)
    requires
        c.x == a.y,
        c.y == a.x,
        d.x == b.y,
        d.y == b.x,
        q.x == p.y,
        q.y == p.x,
    ensures
        on_segment(c, d, q) == on_segment(a, b, p),
        !on_segment(a, b, p) ==> edge_winding(c, d, q) == above_right(b, p) - above_right(a, p)
            - edge_winding(a, b, p),
{
    lemma_side(a, b, p);
    lemma_side(c, d, q);
    let (ux, uy) = (a.x - p.x, a.y - p.y);
    let (vx, vy) = (b.x - p.x, b.y - p.y);
    let s = ux * vy - uy * vx;
    assert(uy * vx - ux * vy == -s) by (nonlinear_arith)
        requires
            s == ux * vy - uy * vx,
    ;
    assert(side(c, d, q) == uy * vx - ux * vy);
    assert(side(a, b, p) == s);
    lemma_sign(ux, vy);
    lemma_sign(uy, vx);
    if !on_segment(a, b, p) && s == 0 {
        if (uy > 0 && vy <= 0) || (uy <= 0 && vy > 0) {
            lemma_straight(ux, uy, vx, vy);
        }
        if (ux > 0 && vx <= 0) || (ux <= 0 && vx > 0) {
            lemma_straight(uy, ux, vy, vx);
            assert(uy * vx - ux * vy == 0);
        }
    }
}

/// The sign of a product.
proof fn lemma_sign(m: int, n: int)
    ensures
        m > 0 && n > 0 ==> m * n > 0,
        m < 0 && n < 0 ==> m * n > 0,
        m > 0 && n < 0 ==> m * n < 0,
        m < 0 && n > 0 ==> m * n < 0,
        m == 0 || n == 0 ==> m * n == 0,
{
    assert(m > 0 && n > 0 ==> m * n > 0) by (nonlinear_arith);
    assert(m < 0 && n < 0 ==> m * n > 0) by (nonlinear_arith);
    assert(m > 0 && n < 0 ==> m * n < 0) by (nonlinear_arith);
    assert(m < 0 && n > 0 ==> m * n < 0) by (nonlinear_arith);
    assert(m == 0 || n == 0 ==> m * n == 0) by (nonlinear_arith);
}

/// A polygon whose x and y coordinates are exchanged, together with those of a point, covers the
/// same.
pub proof fn law_polygon_transposed(pts: Seq<Point>, p: Point, others: Seq<Point>, q: Point)
    requires
        pts.len() == others.len(),
        forall|i: int|
            0 <= i < pts.len() ==> (#[trigger] others[i]).x == pts[i].y && others[i].y == pts[i].x,
        q.x == p.y,
        q.y == p.x,
    ensures
        covers(others, q) == covers(pts, p),
{
    let share = |v: Point| above_right(v, p);
    assert forall|i: int| #![trigger pts[i]] 0 <= i < pts.len() implies on_segment(
        others[i],
        edge_end(others, i),
        q,
    ) == on_segment(pts[i], edge_end(pts, i), p) && (!on_border(pts, p) ==> edge_winding(
        others[i],
        edge_end(others, i),
        q,
    ) == share(edge_end(pts, i)) - share(pts[i]) - edge_winding(pts[i], edge_end(pts, i), p)) by {
        assert(others[i].x == pts[i].y);
        lemma_transposed_edge(
            pts[i],
            edge_end(pts, i),
            p,
            others[i],
            edge_end(others, i),
            q,
        );
        if !on_border(pts, p) {
            assert(!on_segment(pts[i], edge_end(pts, i), p));
        }
    }
    lemma_same_border(pts, p, others, q);
    if !on_border(pts, p) {
        lemma_opposed(pts, p, others, q, share, pts.len());
        if pts.len() > 0 {
            assert(edge_end(pts, pts.len() - 1) == pts[0]);
        }
    }
}

/// A polygon of one or two corners covers the line between them, and one without corners nothing.
pub proof fn law_polygon_small(pts: Seq<Point>, p: Point)
    requires
        pts.len() <= 2,
    ensures
        covers(pts, p) == (pts.len() > 0 && lies_between(pts[0], pts.last(), p)),
{
    reveal_with_fuel(winding, 3);
    if pts.len() > 0 {
        let (a, b) = (pts[0], pts.last());
        lemma_between(a, b, p);
        lemma_edge_back(a, b, p);
        assert(pts[0] == a);
        if lies_between(a, b, p) {
            law_polygon_border(pts, 0, p);
        }
        assert(pts.len() == 2 ==> pts[1] == b && edge_end(pts, 1) == a && edge_end(pts, 0) == b);
        if on_border(pts, p) {
            let i = choose|i: int|
                0 <= i < pts.len() && on_segment(#[trigger] pts[i], edge_end(pts, i), p);
            lemma_between(b, a, p);
        }
    }
}

} // verus!