use boids::Boid;
use boids::Point;
use boids::MAX_SPEED;

fn boid(id: usize, px: i64, py: i64, vx: i64, vy: i64) -> Boid {
    Boid { id, position: Point { x: px, y: py }, velocity: Point { x: vx, y: vy } }
}

#[test]
fn rules_zero_without_neighbors() {
    // eighty pixels apart: far beyond the five-pixel perception radius
    let all = vec![boid(0, 0, 0, 4000, 0), boid(1, 800000, 800000, -4000, 0)];

    assert_eq!(all[0].align(&all), Point { x: 0, y: 0 });
    assert_eq!(all[0].cohesion(&all), Point { x: 0, y: 0 });
    assert_eq!(all[0].seperation(&all), Point { x: 0, y: 0 });
    assert_eq!(all[1].align(&all), Point { x: 0, y: 0 });
}

#[test]
fn rules_ignore_self() {
    // an agent alone in the world steers nowhere
    let all = vec![boid(0, 500000, 500000, 8000, 8000)];

    assert_eq!(all[0].align(&all), Point { x: 0, y: 0 });
    assert_eq!(all[0].cohesion(&all), Point { x: 0, y: 0 });
    assert_eq!(all[0].seperation(&all), Point { x: 0, y: 0 });
}

#[test]
fn align_single_neighbor() {
    // neighbor at sqrt(2) pixels, flying right at full speed
    let all = vec![boid(0, 0, 0, 0, 0), boid(1, 10000, 10000, 8000, 0)];

    let f = all[0].align(&all);

    // average velocity (8000, 0), rescaled to 8000, minus own zero
    // velocity, clamped from magnitude 8000 down to 2000
    assert_eq!(f, Point { x: 2000, y: 0 });
}

#[test]
fn cohesion_single_neighbor() {
    let all = vec![boid(0, 0, 0, 0, 0), boid(1, 10000, 10000, 0, 0)];

    let f = all[0].cohesion(&all);

    // center of mass (10000, 10000), rescaled to magnitude 8000 gives
    // (5657, 5657), clamped to 2000 gives (1414, 1414)
    assert_eq!(f, Point { x: 1414, y: 1414 });
}

#[test]
fn seperation_single_neighbor() {
    // neighbor one pixel to the right: the push is straight to the left
    let all = vec![boid(0, 0, 0, 0, 0), boid(1, 10000, 0, 0, 0)];

    let f = all[0].seperation(&all);

    assert_eq!(f, Point { x: -2000, y: 0 });
}

#[test]
fn seperation_skips_exact_overlap() {
    // distinct agents on the same spot: no direction to push toward, so the
    // overlapping pair contributes nothing
    let all = vec![boid(0, 0, 0, 0, 0), boid(1, 0, 0, 0, 0)];

    assert_eq!(all[0].seperation(&all), Point { x: 0, y: 0 });
}

#[test]
fn update_applies_forces_and_clamps() {
    let mut b = boid(3, 0, 0, 20000, 0);

    b.update(
        Point { x: 2000, y: 0 },
        Point { x: 2000, y: 0 },
        Point { x: 2000, y: 0 },
    );

    // position advanced by the old velocity
    assert_eq!(b.position, Point { x: 20000, y: 0 });
    // force sum (6000, 0) clamped to 2000, velocity 22000 clamped to 8000
    assert_eq!(b.velocity, Point { x: 8000, y: 0 });
    assert_eq!(b.id, 3);
}

#[test]
fn update_keeps_speed_under_limit() {
    let mut b = boid(0, 0, 0, 9000, 9000);

    b.update(
        Point { x: 2000, y: 2000 },
        Point { x: -2000, y: 1000 },
        Point { x: 500, y: -500 },
    );

    let vx = b.velocity.x as i128;
    let vy = b.velocity.y as i128;
    let ms = MAX_SPEED as i128;
    assert!(vx * vx + vy * vy <= ms * ms + 2 * ms);
}

#[test]
fn update_clamps_even_huge_forces() {
    let mut b = boid(0, 0, 0, 0, 0);

    b.update(
        Point { x: 1_000_000_000, y: -2_000_000_000 },
        Point { x: -3_000_000_000, y: 4_000_000_000 },
        Point { x: 5_000_000_000, y: 6_000_000_000 },
    );

    let vx = b.velocity.x as i128;
    let vy = b.velocity.y as i128;
    let ms = MAX_SPEED as i128;
    assert!(vx * vx + vy * vy <= ms * ms + 2 * ms);
}

#[test]
fn edges_wraps_each_axis() {
    let mut b = boid(0, -5000, 1595000, 100, 200);
    b.edges();
    assert_eq!(b.position, Point { x: 1595000, y: -5000 });
    assert_eq!(b.velocity, Point { x: 100, y: 200 });

    let mut c = boid(1, 800000, 1700000, 0, 0);
    c.edges();
    assert_eq!(c.position, Point { x: 800000, y: 100000 });

    let mut d = boid(2, 0, 1590000, 0, 0);
    d.edges();
    assert_eq!(d.position, Point { x: 0, y: 1590000 });
}

#[test]
fn draw_truncates_toward_zero() {
    let b = boid(0, 1234567, 5000, 0, 0);
    assert_eq!(b.draw(), (123, 0));

    let c = boid(1, -5000, 1599999, 0, 0);
    assert_eq!(c.draw(), (0, 159));
}
