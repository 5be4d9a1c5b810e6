use boids::Point;
use boids::FIELD_SIZE;
use boids::SCALE;

#[test]
fn add() {
    let mut a = Point { x: 10000, y: 20000 };
    let b = Point { x: 30000, y: 40000 };

    a.add(b);

    assert_eq!(a.x, 40000);
    assert_eq!(a.y, 60000);
}

#[test]
fn sub() {
    let mut a = Point { x: 10000, y: 20000 };
    let b = Point { x: 40000, y: 30000 };

    a.sub(b);

    assert_eq!(a.x, -30000);
    assert_eq!(a.y, -10000);
}

#[test]
fn div() {
    let mut a = Point { x: 10000, y: 20000 };
    let n = 5000;

    a.div(n);

    assert_eq!(a.x, 20000);
    assert_eq!(a.y, 40000);
}

#[test]
fn set_magniute() {
    let mut a = Point { x: 30000, y: 40000 };

    a.set_magniute(100000);

    assert_eq!(a.x, 60000);
    assert_eq!(a.y, 80000);
}

#[test]
fn limit() {
    let mut a = Point { x: 60000, y: 80000 };

    a.limit(110000);
    assert_eq!(a.x, 60000);
    assert_eq!(a.y, 80000);

    a.limit(100000);
    assert_eq!(a.x, 60000);
    assert_eq!(a.y, 80000);

    a.limit(50000);
    assert_eq!(a.x, 30000);
    assert_eq!(a.y, 40000);
}

#[test]
fn distance() {
    let a = Point { x: 10000, y: 20000 };
    let b = Point { x: 40000, y: 60000 };

    let d = Point::distance(&a, &b);

    assert_eq!(d, 50000);
}

#[test]
fn distance_edges() {
    let top_left = Point { x: SCALE, y: SCALE };
    let top_right = Point { x: FIELD_SIZE - SCALE, y: SCALE };
    let bottom_left = Point { x: SCALE, y: FIELD_SIZE - SCALE };
    let bottom_right = Point { x: FIELD_SIZE - SCALE, y: FIELD_SIZE - SCALE };

    // clock-wise
    assert_eq!(Point::distance(&top_left, &top_right), 2 * SCALE);
    assert_eq!(Point::distance(&top_right, &bottom_right), 2 * SCALE);
    assert_eq!(Point::distance(&bottom_right, &bottom_left), 2 * SCALE);
    assert_eq!(Point::distance(&bottom_left, &top_left), 2 * SCALE);

    // counter clock-wise
    assert_eq!(Point::distance(&top_left, &bottom_left), 2 * SCALE);
    assert_eq!(Point::distance(&bottom_left, &bottom_right), 2 * SCALE);
    assert_eq!(Point::distance(&bottom_right, &top_right), 2 * SCALE);
    assert_eq!(Point::distance(&top_right, &top_left), 2 * SCALE);

    // diagonal: both axes two pixels around the edge, so the floor of
    // sqrt(8) pixels in fixed-point coordinates
    assert_eq!(Point::distance(&top_left, &bottom_right), 28284);
    assert_eq!(Point::distance(&bottom_right, &top_left), 28284);
    assert_eq!(Point::distance(&top_right, &bottom_left), 28284);
    assert_eq!(Point::distance(&bottom_left, &top_right), 28284);
}

#[test]
fn distance_symmetric() {
    let a = Point { x: 12345, y: 999999 };
    let b = Point { x: 1500000, y: 1 };

    assert_eq!(Point::distance(&a, &b), Point::distance(&b, &a));
    assert_eq!(Point::distance(&a, &a), 0);
}

#[test]
fn limit_zero_vector_unchanged() {
    let mut a = Point { x: 0, y: 0 };

    a.limit(5000);

    assert_eq!(a, Point { x: 0, y: 0 });
}

#[test]
fn set_magniute_zero_vector() {
    // the zero vector's angle is taken as zero, so it lands on the x axis
    let mut a = Point { x: 0, y: 0 };

    a.set_magniute(7000);

    assert_eq!(a, Point { x: 7000, y: 0 });
}
