use vstd::prelude::*;

pub mod boid;
pub mod game;
pub mod point;

pub use boid::Boid;
pub use boid::MAX_FORCE;
pub use boid::MAX_SPEED;
pub use boid::PERCEPTION_RADIUS;
pub use game::Game;
pub use game::BOID_COUNT;
pub use point::Point;
pub use point::FIELD_SIZE;
pub use point::SCALE;
pub use point::SCREEN_SIZE;

verus! {

/// The one-time set-up the host applies before the first frame: the world's
/// four-color palette, deepest water first.
pub fn start() -> (palette: [u32; 4])
    ensures
        palette[0] == 0x0b76bd,
        palette[1] == 0x0aa5bd,
        palette[2] == 0x011113,
        palette[3] == 0x0bbc81,
{
    [0x0b76bd, 0x0aa5bd, 0x011113, 0x0bbc81]
}

/// One frame of the simulation: the host's per-frame hook, with the world
/// passed in rather than held in a hidden global.
pub fn update(game: &mut Game)
    requires
        game::game_wf(*old(game)),
    ensures
        game::game_wf(*final(game)),
        final(game).boids@.len() == old(game).boids@.len(),
        forall|i: int|
            0 <= i < old(game).boids@.len() ==> final(game).boids@[i] == game::stepped(
                #[trigger] old(game).boids@[i],
                old(game).boids@,
            ),
{
    game.update();
}

} // verus!
