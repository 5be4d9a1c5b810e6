use boids::Game;
use boids::BOID_COUNT;
use boids::FIELD_SIZE;

/// The starting speed band: within rounding of a radius drawn from
/// `[0.5, 0.5 + MAX_SPEED)` pixels — in particular, never zero.
fn assert_starting_speed(vx: i64, vy: i64) {
    let speed_sq = (vx as i128) * (vx as i128) + (vy as i128) * (vy as i128);
    assert!(speed_sq > 5000 * 5000 - 4 * 5000 - 2);
    assert!(2500 * speed_sq <= 2501 * 12999 * 12999);
}

#[test]
fn new_world_has_full_population() {
    let g = Game::new();

    assert_eq!(g.boids.len(), BOID_COUNT);
    for (i, b) in g.boids.iter().enumerate() {
        assert_eq!(b.id, i);
        assert!(0 <= b.position.x && b.position.x < FIELD_SIZE);
        assert!(0 <= b.position.y && b.position.y < FIELD_SIZE);
        assert_starting_speed(b.velocity.x, b.velocity.y);
    }
}

#[test]
fn stepping_is_deterministic() {
    let mut g1 = Game::new();
    let mut g2 = Game::new();

    for _ in 0..5 {
        boids::update(&mut g1);
        boids::update(&mut g2);
    }

    assert_eq!(g1.boids.len(), g2.boids.len());
    for (a, b) in g1.boids.iter().zip(g2.boids.iter()) {
        assert_eq!(a.position, b.position);
        assert_eq!(a.velocity, b.velocity);
        assert_eq!(a.id, b.id);
    }
}

#[test]
fn stepping_keeps_the_world_well_formed() {
    let mut g = Game::new();

    for _ in 0..3 {
        boids::update(&mut g);
    }

    assert_eq!(g.boids.len(), BOID_COUNT);
    for (i, b) in g.boids.iter().enumerate() {
        assert_eq!(b.id, i);
        // between frames a position may poke at most a couple of pixels
        // past an edge; the next frame's wrap pulls it back
        assert!(-FIELD_SIZE <= b.position.x && b.position.x <= 2 * FIELD_SIZE);
        assert!(-FIELD_SIZE <= b.position.y && b.position.y <= 2 * FIELD_SIZE);
        let px = b.draw();
        assert!(-1 <= px.0 && px.0 <= 160);
        assert!(-1 <= px.1 && px.1 <= 160);
    }
}

#[test]
fn new_boid_is_within_bounds() {
    let mut rng = fastrand::Rng::with_seed(7);

    let b = boids::Boid::new(3, &mut rng);

    assert_eq!(b.id, 3);
    assert!(0 <= b.position.x && b.position.x < FIELD_SIZE);
    assert!(0 <= b.position.y && b.position.y < FIELD_SIZE);
    // each component is at most half a pixel plus the speed limit
    assert!(b.velocity.x.abs() <= 13000);
    assert!(b.velocity.y.abs() <= 13000);
    assert_starting_speed(b.velocity.x, b.velocity.y);
}

#[test]
fn start_returns_the_palette() {
    let palette = boids::start();

    assert_eq!(palette, [0x0b76bd, 0x0aa5bd, 0x011113, 0x0bbc81]);
}
