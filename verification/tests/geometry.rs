use layout21_gds::geom::{Dir, Point, Shape};

fn pts(xy: &[(isize, isize)]) -> Vec<Point> {
    xy.iter().map(|p| Point::new(p.0, p.1)).collect()
}

fn rect(x0: isize, y0: isize, x1: isize, y1: isize) -> Shape {
    Shape::Rect { p0: Point::new(x0, y0), p1: Point::new(x1, y1) }
}

#[test]
fn rect_covers_its_border() {
    let r = rect(10, 0, 0, 5);
    for (x, y) in [(0, 0), (10, 5), (0, 5), (10, 0), (5, 2), (10, 3)] {
        assert!(r.contains(&Point::new(x, y)), "({}, {})", x, y);
    }
    for (x, y) in [(-1, 0), (11, 5), (5, 6), (5, -1)] {
        assert!(!r.contains(&Point::new(x, y)), "({}, {})", x, y);
    }
}

#[test]
fn polygon_covers_inside_and_border() {
    // An L: the upper right quarter is missing.
    let l = Shape::Poly { pts: pts(&[(0, 0), (10, 0), (10, 5), (5, 5), (5, 10), (0, 10)]) };
    for (x, y) in [(0, 0), (10, 5), (5, 5), (5, 10), (1, 9), (9, 1), (7, 5), (5, 7), (0, 3)] {
        assert!(l.contains(&Point::new(x, y)), "({}, {})", x, y);
    }
    for (x, y) in [(6, 6), (10, 10), (11, 0), (-1, 5), (5, 11), (7, 6)] {
        assert!(!l.contains(&Point::new(x, y)), "({}, {})", x, y);
    }
}

#[test]
fn triangle_covers_by_either_direction() {
    let corners = [(0, 0), (8, 0), (0, 8)];
    let mut reversed = corners;
    reversed.reverse();
    for shape in [Shape::Poly { pts: pts(&corners) }, Shape::Poly { pts: pts(&reversed) }] {
        assert!(shape.contains(&Point::new(4, 4)));
        assert!(shape.contains(&Point::new(2, 3)));
        assert!(!shape.contains(&Point::new(5, 4)));
        assert!(!shape.contains(&Point::new(-1, 1)));
    }
}

#[test]
fn polygon_of_extreme_corners() {
    let (a, b) = (isize::MIN, isize::MAX);
    let big = Shape::Poly { pts: pts(&[(a, a), (b, a), (b, b)]) };
    assert!(big.contains(&Point::new(0, -1)));
    assert!(big.contains(&Point::new(b, a)));
    assert!(!big.contains(&Point::new(-1, 0)));
    assert!(!big.contains(&Point::new(a, b)));
}

#[test]
fn degenerate_shapes() {
    let nothing = Shape::Poly { pts: Vec::new() };
    assert!(!nothing.contains(&Point::new(0, 0)));
    let dot = Shape::Poly { pts: pts(&[(3, 4)]) };
    assert!(dot.contains(&Point::new(3, 4)));
    assert!(!dot.contains(&Point::new(3, 5)));
    let no_path = Shape::Path { width: 10, pts: pts(&[(0, 0)]) };
    assert!(!no_path.contains(&Point::new(0, 0)));
}

#[test]
fn path_covers_half_its_width() {
    let path = Shape::Path { width: 4, pts: pts(&[(0, 0), (10, 0), (10, 10), (14, 14)]) };
    for (x, y) in [(0, 2), (5, -2), (10, 2), (8, 5), (12, 9), (12, 12)] {
        assert!(path.contains(&Point::new(x, y)), "({}, {})", x, y);
    }
    for (x, y) in [(-1, 0), (5, 3), (7, 5), (13, 9), (13, 12), (15, 15)] {
        assert!(!path.contains(&Point::new(x, y)), "({}, {})", x, y);
    }
    let odd = Shape::Path { width: 3, pts: pts(&[(0, 0), (10, 0)]) };
    assert!(odd.contains(&Point::new(5, 1)));
    assert!(!odd.contains(&Point::new(5, 2)));
}

#[test]
fn centre_is_the_middle_rounded_toward_zero() {
    assert_eq!(rect(0, 0, 10, 5).center(), Point::new(5, 2));
    assert_eq!(rect(0, 0, -3, -5).center(), Point::new(-1, -2));
    assert_eq!(rect(isize::MIN, 0, isize::MAX, 1).center(), Point::new(0, 0));
    assert_eq!(rect(isize::MAX, isize::MIN, isize::MAX, isize::MIN).center(),
        Point::new(isize::MAX, isize::MIN));
    let poly = Shape::Poly { pts: pts(&[(2, 2), (12, 0), (4, 8)]) };
    assert_eq!(poly.center(), Point::new(7, 4));
    let path = Shape::Path { width: 2, pts: pts(&[(0, 0), (0, 20), (10, 20)]) };
    assert_eq!(path.center(), Point::new(5, 10));
}

#[test]
fn orientation_follows_the_longer_side() {
    assert_eq!(rect(0, 0, 10, 5).orientation(), Dir::Horiz);
    assert_eq!(rect(0, 5, 5, -5).orientation(), Dir::Vert);
    assert_eq!(rect(0, 0, 5, 5).orientation(), Dir::Horiz);
    assert_eq!(rect(isize::MIN, 0, isize::MAX, 9).orientation(), Dir::Horiz);
    let poly = Shape::Poly { pts: pts(&[(0, 0), (1, 9), (2, 0)]) };
    assert_eq!(poly.orientation(), Dir::Vert);
}

#[test]
fn corners_of_a_rectangle_cover_what_it_covers() {
    let clockwise = [(1, 1), (1, 6), (4, 6), (4, 1)];
    let counter = [(1, 1), (4, 1), (4, 6), (1, 6)];
    let r = rect(1, 1, 4, 6);
    for corners in [clockwise, counter] {
        let poly = Shape::Poly { pts: pts(&corners) };
        for x in -1..7 {
            for y in -1..9 {
                let p = Point::new(x, y);
                assert_eq!(poly.contains(&p), r.contains(&p), "({}, {})", x, y);
            }
        }
    }
}

#[test]
fn rectangles_cover_their_centres() {
    for x in -4..5 {
        for y in -4..5 {
            let r = rect(x, y, 3, -2);
            assert!(r.contains(&r.center()));
        }
    }
}
