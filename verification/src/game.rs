use crate::boid::boid_ok;
use crate::boid::rng_with_seed;
use crate::boid::rule_align;
use crate::boid::rule_cohesion;
use crate::boid::rule_seperation;
use crate::boid::starting_speed_ok;
use crate::boid::vel_ok;
use crate::boid::wrap_coord;
use crate::boid::Boid;
use crate::boid::MAX_FORCE;
use crate::boid::MAX_SPEED;
use crate::point::abs_val;
use crate::point::limit_pt;
use crate::point::pt;
use crate::point::Point;
use crate::point::FIELD_SIZE;
use crate::point::SCALE;
use vstd::prelude::*;

verus! {

/// The fixed number of agents in a world.
pub const BOID_COUNT: usize = 64;

/// The seed of the world's deterministic generator.
pub const WORLD_SEED: u64 = 254;

/// The whole simulation state: the fixed, ordered population of agents.
pub struct Game {
    pub boids: Vec<Boid>,
}

/// The world's invariant: exactly `BOID_COUNT` agents, each within its
/// bounds, with sequential identities.
pub open spec fn game_wf(g: Game) -> bool {
    &&& g.boids@.len() == BOID_COUNT
    &&& forall|i: int| 0 <= i < g.boids@.len() ==> boid_ok(#[trigger] g.boids@[i])
    &&& forall|i: int| 0 <= i < g.boids@.len() ==> (#[trigger] g.boids@[i]).id == i
}

/// One frame's effect on a single agent `b`, all three forces read from the
/// same pre-frame population `s`: wrap, advance by the old velocity, steer.
pub open spec fn stepped(b: Boid, s: Seq<Boid>) -> Boid {
    let a = rule_align(b, s);
    let c = rule_cohesion(b, s);
    let p = rule_seperation(b, s);
    let acc = limit_pt((a.0 + c.0 + p.0, a.1 + c.1 + p.1), MAX_FORCE as int);
    let v = limit_pt((b.velocity.x + acc.0, b.velocity.y + acc.1), MAX_SPEED as int);
    Boid {
        id: b.id,
        position: Point {
            x: (wrap_coord(b.position.x as int) + b.velocity.x) as i64,
            y: (wrap_coord(b.position.y as int) + b.velocity.y) as i64,
        },
        velocity: Point { x: v.0 as i64, y: v.1 as i64 },
    }
}

impl Game {
    /// A fresh world: `BOID_COUNT` agents with identities `0 .. BOID_COUNT`,
    /// drawn from the generator seeded with `WORLD_SEED`, so that two fresh
    /// worlds are identical. Every agent starts inside the field, moving at
    /// a speed within rounding of a radius from
    /// `[HALF_UNIT, HALF_UNIT + MAX_SPEED)`.
    pub fn new() -> (g: Game)
        ensures
            game_wf(g),
            forall|i: int|
                0 <= i < g.boids@.len() ==> (0 <= (#[trigger] g.boids@[i]).position.x < FIELD_SIZE
                    && 0 <= g.boids@[i].position.y < FIELD_SIZE),
            forall|i: int|
                0 <= i < g.boids@.len() ==> starting_speed_ok(
                    (#[trigger] g.boids@[i]).velocity,
                    MAX_SPEED as int,
                ),
    {
        let mut rng = rng_with_seed(WORLD_SEED);
        let mut boids: Vec<Boid> = Vec::new();
        let mut i: usize = 0;
        while i < BOID_COUNT
            invariant
                i <= BOID_COUNT,
                boids@.len() == i,
                forall|k: int| 0 <= k < i ==> boid_ok(#[trigger] boids@[k]),
                forall|k: int| 0 <= k < i ==> (#[trigger] boids@[k]).id == k,
                forall|k: int|
                    0 <= k < i ==> (0 <= (#[trigger] boids@[k]).position.x < FIELD_SIZE && 0
                        <= boids@[k].position.y < FIELD_SIZE),
                forall|k: int|
                    0 <= k < i ==> starting_speed_ok(
                        (#[trigger] boids@[k]).velocity,
                        MAX_SPEED as int,
                    ),
            decreases BOID_COUNT - i,
        {
            let b = Boid::new(i, &mut rng);
            boids.push(b);
            i = i + 1;
        }
        Game { boids }
    }

    /// One frame, in two phases. First every agent's three forces are
    /// computed against the same unmodified pre-frame population; only then
    /// is each agent wrapped, advanced and steered. No agent ever observes
    /// another agent's in-progress update.
    pub fn update(&mut self)
        requires
            game_wf(*old(self)),
        ensures
            game_wf(*final(self)),
            final(self).boids@.len() == old(self).boids@.len(),
            forall|i: int|
                0 <= i < old(self).boids@.len() ==> final(self).boids@[i] == stepped(
                    #[trigger] old(self).boids@[i],
                    old(self).boids@,
                ),
    {
        let n = self.boids.len();
        let mut aligns: Vec<Point> = Vec::new();
        let mut i: usize = 0;
        while i < n
            invariant
                i <= n,
                n == self.boids@.len(),
                game_wf(*self),
                aligns@.len() == i,
                forall|k: int|
                    0 <= k < i ==> pt(#[trigger] aligns@[k]) == rule_align(
                        self.boids@[k],
                        self.boids@,
                    ),
                forall|k: int|
                    0 <= k < i ==> abs_val((#[trigger] aligns@[k]).x as int) <= MAX_FORCE
                        && abs_val(aligns@[k].y as int) <= MAX_FORCE,
            decreases n - i,
        {
            let f = self.boids[i].align(&self.boids);
            aligns.push(f);
            i = i + 1;
        }
        let mut cohesions: Vec<Point> = Vec::new();
        let mut i: usize = 0;
        while i < n
            invariant
                i <= n,
                n == self.boids@.len(),
                game_wf(*self),
                cohesions@.len() == i,
                forall|k: int|
                    0 <= k < i ==> pt(#[trigger] cohesions@[k]) == rule_cohesion(
                        self.boids@[k],
                        self.boids@,
                    ),
                forall|k: int|
                    0 <= k < i ==> abs_val((#[trigger] cohesions@[k]).x as int) <= MAX_FORCE
                        && abs_val(cohesions@[k].y as int) <= MAX_FORCE,
            decreases n - i,
        {
            let f = self.boids[i].cohesion(&self.boids);
            cohesions.push(f);
            i = i + 1;
        }
        let mut seperations: Vec<Point> = Vec::new();
        let mut i: usize = 0;
        while i < n
            invariant
                i <= n,
                n == self.boids@.len(),
                game_wf(*self),
                seperations@.len() == i,
                forall|k: int|
                    0 <= k < i ==> pt(#[trigger] seperations@[k]) == rule_seperation(
                        self.boids@[k],
                        self.boids@,
                    ),
                forall|k: int|
                    0 <= k < i ==> abs_val((#[trigger] seperations@[k]).x as int) <= MAX_FORCE
                        && abs_val(seperations@[k].y as int) <= MAX_FORCE,
            decreases n - i,
        {
            let f = self.boids[i].seperation(&self.boids);
            seperations.push(f);
            i = i + 1;
        }
        let mut next: Vec<Boid> = Vec::new();
        let mut i: usize = 0;
        while i < n
            invariant
                i <= n,
                n == self.boids@.len(),
                game_wf(*self),
                aligns@.len() == n,
                cohesions@.len() == n,
                seperations@.len() == n,
                forall|k: int|
                    0 <= k < n ==> pt(#[trigger] aligns@[k]) == rule_align(
                        self.boids@[k],
                        self.boids@,
                    ),
                forall|k: int|
                    0 <= k < n ==> abs_val((#[trigger] aligns@[k]).x as int) <= MAX_FORCE
                        && abs_val(aligns@[k].y as int) <= MAX_FORCE,
                forall|k: int|
                    0 <= k < n ==> pt(#[trigger] cohesions@[k]) == rule_cohesion(
                        self.boids@[k],
                        self.boids@,
                    ),
                forall|k: int|
                    0 <= k < n ==> abs_val((#[trigger] cohesions@[k]).x as int) <= MAX_FORCE
                        && abs_val(cohesions@[k].y as int) <= MAX_FORCE,
                forall|k: int|
                    0 <= k < n ==> pt(#[trigger] seperations@[k]) == rule_seperation(
                        self.boids@[k],
                        self.boids@,
                    ),
                forall|k: int|
                    0 <= k < n ==> abs_val((#[trigger] seperations@[k]).x as int) <= MAX_FORCE
                        && abs_val(seperations@[k].y as int) <= MAX_FORCE,
                next@.len() == i,
                forall|k: int|
                    0 <= k < i ==> #[trigger] next@[k] == stepped(self.boids@[k], self.boids@),
                forall|k: int| 0 <= k < i ==> boid_ok(#[trigger] next@[k]),
                forall|k: int| 0 <= k < i ==> (#[trigger] next@[k]).id == k,
            decreases n - i,
        {
            let mut b = self.boids[i];
            b.edges();
            b.update(aligns[i], cohesions[i], seperations[i]);
            next.push(b);
            i = i + 1;
        }
        self.boids = next;
    }
}

} // verus!
