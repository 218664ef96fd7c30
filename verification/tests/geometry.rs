use oasis_writer::geometry::{Point, Rectangle};

#[test]
fn make_point() {
    let p = Point { x: 4, y: 5 };
    assert_eq!(p.x(), 4);
    assert_eq!(p.y(), 5);
}

#[test]
fn make_rectangle() {
    let pt1 = Point { x: -1, y: -1 };
    let pt2 = Point { x: 4, y: 5 };
    let r = Rectangle { pt1: pt1, pt2: pt2 };
    assert_eq!(r.length(), 5);
    assert_eq!(r.width(), 6);
    assert_eq!(r.llx(), -1);
    assert_eq!(r.lly(), -1);
}

#[test]
fn set_point_coordinates() {
    let mut p = Point { x: 4, y: 5 };
    p.set_x(-7);
    assert_eq!((p.x(), p.y()), (-7, 5));
    p.set_y(9);
    assert_eq!((p.x(), p.y()), (-7, 9));
}

#[test]
fn rectangle_corner_order_does_not_matter() {
    let a = Point { x: 10, y: -3 };
    let b = Point { x: -2, y: 8 };
    let r1 = Rectangle { pt1: a, pt2: b };
    let r2 = Rectangle { pt1: b, pt2: a };
    assert_eq!((r1.length(), r1.width(), r1.llx(), r1.lly()), (12, 11, -2, -3));
    assert_eq!((r2.length(), r2.width(), r2.llx(), r2.lly()), (12, 11, -2, -3));
    // The lower corner plus the extent reaches the higher corner.
    assert_eq!(r1.llx() + r1.length(), 10);
    assert_eq!(r1.lly() + r1.width(), 8);
}

#[test]
fn degenerate_rectangle() {
    let p = Point { x: 3, y: 3 };
    let r = Rectangle { pt1: p, pt2: p };
    assert_eq!((r.length(), r.width(), r.llx(), r.lly()), (0, 0, 3, 3));
}

#[test]
fn rectangle_at_the_extremes() {
    let r = Rectangle { pt1: Point { x: 0, y: -1 }, pt2: Point { x: i64::MAX, y: i64::MIN } };
    assert_eq!(r.length(), i64::MAX);
    assert_eq!(r.width(), i64::MAX);
    assert_eq!(r.llx(), 0);
    assert_eq!(r.lly(), i64::MIN);
}
