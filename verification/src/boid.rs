use crate::point::abs_val;
use crate::point::div_coord;
use crate::point::limit_pt;
use crate::point::mag_sq;
use crate::point::pt;
use crate::point::set_mag_pt;
use crate::point::spec_distance;
use crate::point::sq;
use crate::point::Point;
use crate::point::FIELD_SIZE;
use crate::point::SCALE;
use vstd::prelude::*;

verus! {

/// Another agent closer than this is a neighbor (five pixels).
pub const PERCEPTION_RADIUS: i64 = 50000;

/// Largest magnitude of the combined steering force (a fifth of a pixel).
pub const MAX_FORCE: i64 = 2000;

/// Largest speed of an agent (four fifths of a pixel per frame).
pub const MAX_SPEED: i64 = 8000;

/// Half a pixel: the least starting speed of an agent.
pub const HALF_UNIT: i64 = 5000;

/// An autonomous agent: a stable identity, a position on the field and a
/// velocity, both in fixed-point coordinates.
#[derive(Clone, Copy, Debug, PartialEq, Eq, Structural)]
pub struct Boid {
    pub id: usize,
    pub position: Point,
    pub velocity: Point,
}

/// Positions stay well inside this band between frames: the field, padded by
/// one field size on either side.
pub open spec fn coord_ok(x: int) -> bool {
    -FIELD_SIZE <= x <= 2 * FIELD_SIZE
}

/// Velocities never exceed two pixels per frame on either axis.
pub open spec fn vel_ok(v: Point) -> bool {
    abs_val(v.x as int) <= 2 * SCALE && abs_val(v.y as int) <= 2 * SCALE
}

/// The bounds every agent keeps between frames.
pub open spec fn boid_ok(b: Boid) -> bool {
    coord_ok(b.position.x as int) && coord_ok(b.position.y as int) && vel_ok(b.velocity)
}

/// `other` is a neighbor of `b`: a different agent within the perception
/// radius, by toroidal distance.
pub open spec fn is_neighbor(b: Boid, other: Boid) -> bool {
    other.id != b.id && spec_distance(b.position, other.position) < PERCEPTION_RADIUS
}

/// How many agents of `s` are neighbors of `b`.
pub open spec fn neighbor_count(b: Boid, s: Seq<Boid>) -> int
    decreases s.len(),
{
    if s.len() == 0 {
        0
    } else {
        neighbor_count(b, s.drop_last()) + if is_neighbor(b, s.last()) {
            1int
        } else {
            0int
        }
    }
}

/// Sum of the velocities of the neighbors of `b` in `s`.
pub open spec fn vel_sum(b: Boid, s: Seq<Boid>) -> (int, int)
    decreases s.len(),
{
    if s.len() == 0 {
        (0, 0)
    } else {
        let rest = vel_sum(b, s.drop_last());
        if is_neighbor(b, s.last()) {
            (rest.0 + s.last().velocity.x, rest.1 + s.last().velocity.y)
        } else {
            rest
        }
    }
}

/// Sum of the positions of the neighbors of `b` in `s`.
pub open spec fn pos_sum(b: Boid, s: Seq<Boid>) -> (int, int)
    decreases s.len(),
{
    if s.len() == 0 {
        (0, 0)
    } else {
        let rest = pos_sum(b, s.drop_last());
        if is_neighbor(b, s.last()) {
            (rest.0 + s.last().position.x, rest.1 + s.last().position.y)
        } else {
            rest
        }
    }
}

/// The squared distance between two agents, as a fixed-point value.
pub open spec fn sep_dsq(b: Boid, o: Boid) -> int {
    sq(spec_distance(b.position, o.position)) / (SCALE as int)
}

/// A neighbor contributes to separation unless it sits (nearly) on top of
/// `b`: a squared distance that rounds to zero would divide by zero, so such
/// an overlap is skipped.
pub open spec fn sep_include(b: Boid, o: Boid) -> bool {
    is_neighbor(b, o) && sep_dsq(b, o) >= 1
}

/// How many agents of `s` contribute to the separation of `b`.
pub open spec fn sep_count(b: Boid, s: Seq<Boid>) -> int
    decreases s.len(),
{
    if s.len() == 0 {
        0
    } else {
        sep_count(b, s.drop_last()) + if sep_include(b, s.last()) {
            1int
        } else {
            0int
        }
    }
}

/// Sum of the displacements away from the contributing neighbors, each
/// weighted by the inverse of its squared distance.
pub open spec fn sep_sum(b: Boid, s: Seq<Boid>) -> (int, int)
    decreases s.len(),
{
    if s.len() == 0 {
        (0, 0)
    } else {
        let rest = sep_sum(b, s.drop_last());
        let o = s.last();
        if sep_include(b, o) {
            let d = sep_dsq(b, o);
            (
                rest.0 + div_coord(b.position.x - o.position.x, d),
                rest.1 + div_coord(b.position.y - o.position.y, d),
            )
        } else {
            rest
        }
    }
}

/// The alignment force: the average neighbor velocity, rescaled to full
/// speed, less the own velocity, clamped to the greatest force. Zero without
/// neighbors.
pub open spec fn rule_align(b: Boid, s: Seq<Boid>) -> (int, int) {
    let cnt = neighbor_count(b, s);
    if cnt == 0 {
        (0, 0)
    } else {
        let sum = vel_sum(b, s);
        let avg = (div_coord(sum.0, cnt * SCALE), div_coord(sum.1, cnt * SCALE));
        let mg = set_mag_pt(avg, MAX_SPEED as int);
        limit_pt((mg.0 - b.velocity.x, mg.1 - b.velocity.y), MAX_FORCE as int)
    }
}

/// The cohesion force: toward the neighbors' average position, rescaled to
/// full speed, less the own velocity, clamped. Zero without neighbors.
pub open spec fn rule_cohesion(b: Boid, s: Seq<Boid>) -> (int, int) {
    let cnt = neighbor_count(b, s);
    if cnt == 0 {
        (0, 0)
    } else {
        let sum = pos_sum(b, s);
        let avg = (div_coord(sum.0, cnt * SCALE), div_coord(sum.1, cnt * SCALE));
        let ctr = (avg.0 - b.position.x, avg.1 - b.position.y);
        let mg = set_mag_pt(ctr, MAX_SPEED as int);
        limit_pt((mg.0 - b.velocity.x, mg.1 - b.velocity.y), MAX_FORCE as int)
    }
}

/// The separation force: the average inverse-square-weighted displacement
/// away from close neighbors, rescaled to full speed, less the own velocity,
/// clamped. Zero without contributing neighbors.
pub open spec fn rule_seperation(b: Boid, s: Seq<Boid>) -> (int, int) {
    let cnt = sep_count(b, s);
    if cnt == 0 {
        (0, 0)
    } else {
        let sum = sep_sum(b, s);
        let avg = (div_coord(sum.0, cnt * SCALE), div_coord(sum.1, cnt * SCALE));
        let mg = set_mag_pt(avg, MAX_SPEED as int);
        limit_pt((mg.0 - b.velocity.x, mg.1 - b.velocity.y), MAX_FORCE as int)
    }
}

/// One coordinate after the wrap at the field's edges. The wrap triggers
/// above `FIELD_SIZE - SCALE`, one whole pixel below the far edge, matching a
/// discrete-pixel field whose valid columns are `0 .. SCREEN_SIZE - 1`.
pub open spec fn wrap_coord(x: int) -> int {
    if x < 0 {
        x + FIELD_SIZE
    } else if x > FIELD_SIZE - SCALE {
        x - FIELD_SIZE
    } else {
        x
    }
}

/// One coordinate truncated to its pixel column, toward zero.
pub open spec fn pixel_coord(x: int) -> int {
    if x >= 0 {
        x / (SCALE as int)
    } else {
        -((-x) / (SCALE as int))
    }
}

/// The speed a fresh agent starts with: for some radius `r` drawn from
/// `[HALF_UNIT, HALF_UNIT + max_radius)`, the squared speed is within
/// rounding of `r * r` — at most a factor `2501/2500` above it, and below it
/// by less than `4 * r + 2`. Which `r` comes out is the generator's; that the
/// speed sits in this band holds of every outcome, so a zero velocity is
/// ruled out.
pub open spec fn speed_near(v: Point, r: int) -> bool {
    2500 * mag_sq(v) <= 2501 * (r * r) && r * r - 4 * r - 2 < mag_sq(v)
}

pub open spec fn starting_speed_ok(v: Point, max_radius: int) -> bool {
    exists|r: int| HALF_UNIT <= r && r < HALF_UNIT + max_radius && #[trigger] speed_near(v, r)
}

#[verifier::external_type_specification]
#[verifier::external_body]
pub struct ExRng(fastrand::Rng);

/// Relies on fastrand::Rng::with_seed: builds the generator whose sequence of
/// draws is determined by the seed alone.
#[verifier::external_body]
pub(crate) fn rng_with_seed(seed: u64) -> fastrand::Rng {
    fastrand::Rng::with_seed(seed)
}

/// Relies on fastrand::Rng::u64: a draw from `0..bound`, advancing the
/// generator. It panics only on an empty range, which the precondition rules
/// out; nothing more is promised of which value comes out.
#[verifier::external_body]
fn rng_u64_below(rng: &mut fastrand::Rng, bound: u64) -> (r: u64)
    requires
        1 <= bound,
    ensures
        r < bound,
{
    rng.u64(0..bound)
}

proof fn lemma_take_succ(s: Seq<Boid>, i: int)
    requires
        0 <= i < s.len(),
    ensures
        s.take(i + 1).drop_last() == s.take(i),
        s.take(i + 1).last() == s[i],
{
    assert(s.take(i + 1).drop_last() =~= s.take(i));
}

impl Boid {
    /// A fresh agent: the given identity, a position drawn uniformly over the
    /// field, and a velocity of random direction with magnitude drawn from
    /// `[HALF_UNIT, HALF_UNIT + max_speed)`.
    pub fn new(id: usize, rng: &mut fastrand::Rng) -> (b: Boid)
        ensures
            b.id == id,
            0 <= b.position.x < FIELD_SIZE,
            0 <= b.position.y < FIELD_SIZE,
            starting_speed_ok(b.velocity, MAX_SPEED as int),
            boid_ok(b),
    {
        let px = rng_u64_below(rng, FIELD_SIZE as u64) as i64;
        let py = rng_u64_below(rng, FIELD_SIZE as u64) as i64;
        let velocity = Self::random_direction(rng, MAX_SPEED);
        Boid { id, position: Point { x: px, y: py }, velocity }
    }

    /// A vector of random direction — the angle is uniform, by rejection from
    /// an annulus — rescaled to a magnitude drawn uniformly from
    /// `[HALF_UNIT, HALF_UNIT + max_radius)`.
    fn random_direction(rng: &mut fastrand::Rng, max_radius: i64) -> (v: Point)
        requires
            1 <= max_radius <= SCALE,
        ensures
            starting_speed_ok(v, max_radius as int),
            abs_val(v.x as int) <= max_radius + HALF_UNIT,
            abs_val(v.y as int) <= max_radius + HALF_UNIT,
    {
        let radius: i64 = rng_u64_below(rng, max_radius as u64) as i64 + HALF_UNIT;
        let mut dx: i64 = SCALE;
        let mut dy: i64 = 0;
        let mut tries: usize = 0;
        while tries < 16
            invariant
                -SCALE <= dx <= SCALE,
                -SCALE <= dy <= SCALE,
                25_000_000 <= dx * dx + dy * dy <= 100_000_000,
            decreases 16 - tries,
        {
            let cx: i64 = rng_u64_below(rng, 2 * (SCALE as u64) + 1) as i64 - SCALE;
            let cy: i64 = rng_u64_below(rng, 2 * (SCALE as u64) + 1) as i64 - SCALE;
            proof {
                assert(0 <= cx * cx <= SCALE * SCALE && 0 <= cy * cy <= SCALE * SCALE)
                    by (nonlinear_arith)
                    requires
                        -SCALE <= cx <= SCALE,
                        -SCALE <= cy <= SCALE,
                        SCALE == 10000;
            }
            let msq: i64 = cx * cx + cy * cy;
            if 25_000_000 <= msq && msq <= 100_000_000 {
                dx = cx;
                dy = cy;
                break ;
            }
            tries = tries + 1;
        }
        let mut p = Point { x: dx, y: dy };
        proof {
            let s = (dx as int) * (dx as int) + (dy as int) * (dy as int);
            let r = radius as int;
            let m = crate::point::floor_sqrt(s);
            crate::point::lemma_floor_sqrt(s);
            crate::point::lemma_floor_sqrt_exact(5000);
            crate::point::lemma_floor_sqrt_exact(10000);
            crate::point::lemma_floor_sqrt_monotonic(25_000_000, s);
            crate::point::lemma_floor_sqrt_monotonic(s, 100_000_000);
            crate::point::lemma_set_mag_magnitude((dx as int, dy as int), r);
        }
        p.set_magniute(radius);
        proof {
            let s = (dx as int) * (dx as int) + (dy as int) * (dy as int);
            let r = radius as int;
            let m = crate::point::floor_sqrt(s);
            let q = set_mag_pt((dx as int, dy as int), r);
            let b0 = abs_val(q.0);
            let b1 = abs_val(q.1);
            assert(mag_sq(p) == q.0 * q.0 + q.1 * q.1);
            assert(mag_sq(p) == b0 * b0 + b1 * b1) by (nonlinear_arith)
                requires
                    mag_sq(p) == q.0 * q.0 + q.1 * q.1,
                    b0 == abs_val(q.0),
                    b1 == abs_val(q.1);
            assert(2500 * mag_sq(p) <= 2501 * (r * r)) by (nonlinear_arith)
                requires
                    m * m * mag_sq(p) <= s * (r * r),
                    s < (m + 1) * (m + 1),
                    5000 <= m,
                    0 <= r,
                    0 <= mag_sq(p);
            assert(r * r - 4 * r - 2 < mag_sq(p)) by (nonlinear_arith)
                requires
                    (b0 + 1) * (b0 + 1) + (b1 + 1) * (b1 + 1) > r * r,
                    mag_sq(p) == b0 * b0 + b1 * b1,
                    0 <= b0 <= r,
                    0 <= b1 <= r;
            assert(speed_near(p, r));
            assert(starting_speed_ok(p, max_radius as int));
        }
        p
    }

    /// The pixel the agent is drawn at: its position truncated toward zero,
    /// one coordinate per axis, for the host's point-drawing primitive.
    pub fn draw(&self) -> (px: (i32, i32))
        requires
            coord_ok(self.position.x as int),
            coord_ok(self.position.y as int),
        ensures
            px.0 == pixel_coord(self.position.x as int),
            px.1 == pixel_coord(self.position.y as int),
    {
        (Self::pixel_one(self.position.x), Self::pixel_one(self.position.y))
    }

    fn pixel_one(x: i64) -> (p: i32)
        requires
            coord_ok(x as int),
        ensures
            p == pixel_coord(x as int),
    {
        if x >= 0 {
            (x / SCALE) as i32
        } else {
            let ax: i64 = -x;
            -((ax / SCALE) as i32)
        }
    }

    /// Wrap the position back onto the field, each axis on its own; the
    /// velocity and identity are untouched.
    pub fn edges(&mut self)
        requires
            coord_ok(old(self).position.x as int),
            coord_ok(old(self).position.y as int),
        ensures
            final(self).position.x == wrap_coord(old(self).position.x as int),
            final(self).position.y == wrap_coord(old(self).position.y as int),
            final(self).velocity == old(self).velocity,
            final(self).id == old(self).id,
            -SCALE <= final(self).position.x <= FIELD_SIZE,
            -SCALE <= final(self).position.y <= FIELD_SIZE,
    {
        if self.position.x < 0 {
            self.position.x = self.position.x + FIELD_SIZE;
        } else if self.position.x > FIELD_SIZE - SCALE {
            self.position.x = self.position.x - FIELD_SIZE;
        }
        if self.position.y < 0 {
            self.position.y = self.position.y + FIELD_SIZE;
        } else if self.position.y > FIELD_SIZE - SCALE {
            self.position.y = self.position.y - FIELD_SIZE;
        }
    }

    /// Advance the position by the velocity, then steer: the three forces are
    /// summed, clamped to `MAX_FORCE`, added to the velocity, and the velocity
    /// is clamped to `MAX_SPEED`. Afterwards the squared speed is at most
    /// `MAX_SPEED^2 + 2 * MAX_SPEED` — full speed, up to rounding — whatever
    /// forces were handed in: only the sums' fitting into the coordinate type
    /// is asked of them.
    pub fn update(&mut self, align: Point, cohesion: Point, seperation: Point)
        requires
            boid_ok(*old(self)),
            abs_val(align.x as int) <= 0x2000_0000_0000_0000,
            abs_val(align.y as int) <= 0x2000_0000_0000_0000,
            abs_val(cohesion.x as int) <= 0x2000_0000_0000_0000,
            abs_val(cohesion.y as int) <= 0x2000_0000_0000_0000,
            abs_val(seperation.x as int) <= 0x2000_0000_0000_0000,
            abs_val(seperation.y as int) <= 0x2000_0000_0000_0000,
        ensures
            final(self).id == old(self).id,
            final(self).position.x == old(self).position.x + old(self).velocity.x,
            final(self).position.y == old(self).position.y + old(self).velocity.y,
            ({
                let acc = limit_pt(
                    (
                        align.x + cohesion.x + seperation.x,
                        align.y + cohesion.y + seperation.y,
                    ),
                    MAX_FORCE as int,
                );
                pt(final(self).velocity) == limit_pt(
                    (old(self).velocity.x + acc.0, old(self).velocity.y + acc.1),
                    MAX_SPEED as int,
                )
            }),
            mag_sq(final(self).velocity) <= sq(MAX_SPEED as int) + 2 * MAX_SPEED,
            vel_ok(final(self).velocity),
    {
        self.position.add(self.velocity);
        let mut acceleration = Point { x: 0, y: 0 };
        acceleration.add(align);
        acceleration.add(cohesion);
        acceleration.add(seperation);
        acceleration.limit(MAX_FORCE);
        self.velocity.add(acceleration);
        self.velocity.limit(MAX_SPEED);
    }

    /// The alignment force against the whole population `boids`, computed
    /// as `rule_align` states it.
    pub fn align(&self, boids: &Vec<Boid>) -> (f: Point)
        requires
            boids@.len() <= 100000,
            boid_ok(*self),
            forall|k: int| 0 <= k < boids@.len() ==> boid_ok(#[trigger] boids@[k]),
        ensures
            pt(f) == rule_align(*self, boids@),
            abs_val(f.x as int) <= MAX_FORCE,
            abs_val(f.y as int) <= MAX_FORCE,
    {
        let mut avg = Point { x: 0, y: 0 };
        let mut total: usize = 0;
        let n = boids.len();
        let mut i: usize = 0;
        while i < n
            invariant
                i <= n,
                n == boids@.len(),
                n <= 100000,
                boid_ok(*self),
                forall|k: int| 0 <= k < boids@.len() ==> boid_ok(#[trigger] boids@[k]),
                total == neighbor_count(*self, boids@.take(i as int)),
                (avg.x as int, avg.y as int) == vel_sum(*self, boids@.take(i as int)),
                total <= i,
                abs_val(avg.x as int) <= 20000 * total,
                abs_val(avg.y as int) <= 20000 * total,
            decreases n - i,
        {
            let b = &boids[i];
            proof {
                lemma_take_succ(boids@, i as int);
            }
            if self.id != b.id {
                let d = Point::distance(&self.position, &b.position);
                if d < PERCEPTION_RADIUS {
                    avg.add(b.velocity);
                    total = total + 1;
                }
            }
            i = i + 1;
        }
        proof {
            assert(boids@.take(n as int) =~= boids@);
        }
        if total > 0 {
            let cnt = total as i64;
            proof {
                assert(1 <= (cnt as int) * SCALE <= 1_000_000_000 && abs_val(avg.x as int)
                    * SCALE <= abs_val((cnt as int) * SCALE) * 20000 && abs_val(
                    avg.y as int,
                ) * SCALE <= abs_val((cnt as int) * SCALE) * 20000) by (nonlinear_arith)
                    requires
                        abs_val(avg.x as int) <= 20000 * total,
                        abs_val(avg.y as int) <= 20000 * total,
                        cnt == total,
                        1 <= total <= 100000,
                        SCALE == 10000;
                crate::point::lemma_div_coord_bound(avg.x as int, (cnt as int) * SCALE, 20000);
                crate::point::lemma_div_coord_bound(avg.y as int, (cnt as int) * SCALE, 20000);
            }
            avg.div(cnt * SCALE);
            avg.set_magniute(MAX_SPEED);
            avg.sub(self.velocity);
            avg.limit(MAX_FORCE);
        }
        avg
    }

    /// The cohesion force against the whole population `boids`, computed as
    /// `rule_cohesion` states it.
    pub fn cohesion(&self, boids: &Vec<Boid>) -> (f: Point)
        requires
            boids@.len() <= 100000,
            boid_ok(*self),
            forall|k: int| 0 <= k < boids@.len() ==> boid_ok(#[trigger] boids@[k]),
        ensures
            pt(f) == rule_cohesion(*self, boids@),
            abs_val(f.x as int) <= MAX_FORCE,
            abs_val(f.y as int) <= MAX_FORCE,
    {
        let mut avg = Point { x: 0, y: 0 };
        let mut total: usize = 0;
        let n = boids.len();
        let mut i: usize = 0;
        while i < n
            invariant
                i <= n,
                n == boids@.len(),
                n <= 100000,
                boid_ok(*self),
                forall|k: int| 0 <= k < boids@.len() ==> boid_ok(#[trigger] boids@[k]),
                total == neighbor_count(*self, boids@.take(i as int)),
                (avg.x as int, avg.y as int) == pos_sum(*self, boids@.take(i as int)),
                total <= i,
                abs_val(avg.x as int) <= 3200000 * total,
                abs_val(avg.y as int) <= 3200000 * total,
            decreases n - i,
        {
            let b = &boids[i];
            proof {
                lemma_take_succ(boids@, i as int);
            }
            if self.id != b.id {
                let d = Point::distance(&self.position, &b.position);
                if d < PERCEPTION_RADIUS {
                    avg.add(b.position);
                    total = total + 1;
                }
            }
            i = i + 1;
        }
        proof {
            assert(boids@.take(n as int) =~= boids@);
        }
        if total > 0 {
            let cnt = total as i64;
            proof {
                assert(1 <= (cnt as int) * SCALE <= 1_000_000_000 && abs_val(avg.x as int)
                    * SCALE <= abs_val((cnt as int) * SCALE) * 3200000 && abs_val(
                    avg.y as int,
                ) * SCALE <= abs_val((cnt as int) * SCALE) * 3200000) by (nonlinear_arith)
                    requires
                        abs_val(avg.x as int) <= 3200000 * total,
                        abs_val(avg.y as int) <= 3200000 * total,
                        cnt == total,
                        1 <= total <= 100000,
                        SCALE == 10000;
                crate::point::lemma_div_coord_bound(avg.x as int, (cnt as int) * SCALE, 3200000);
                crate::point::lemma_div_coord_bound(avg.y as int, (cnt as int) * SCALE, 3200000);
            }
            avg.div(cnt * SCALE);
            avg.sub(self.position);
            avg.set_magniute(MAX_SPEED);
            avg.sub(self.velocity);
            avg.limit(MAX_FORCE);
        }
        avg
    }

    /// The separation force against the whole population `boids`, computed as
    /// `rule_seperation` states it. A neighbor at a distance whose square
    /// rounds to zero is skipped, since its inverse-square weight has no
    /// value.
    pub fn seperation(&self, boids: &Vec<Boid>) -> (f: Point)
        requires
            boids@.len() <= 100000,
            boid_ok(*self),
            forall|k: int| 0 <= k < boids@.len() ==> boid_ok(#[trigger] boids@[k]),
        ensures
            pt(f) == rule_seperation(*self, boids@),
            abs_val(f.x as int) <= MAX_FORCE,
            abs_val(f.y as int) <= MAX_FORCE,
    {
        let mut avg = Point { x: 0, y: 0 };
        let mut total: usize = 0;
        let n = boids.len();
        let mut i: usize = 0;
        while i < n
            invariant
                i <= n,
                n == boids@.len(),
                n <= 100000,
                boid_ok(*self),
                forall|k: int| 0 <= k < boids@.len() ==> boid_ok(#[trigger] boids@[k]),
                total == sep_count(*self, boids@.take(i as int)),
                (avg.x as int, avg.y as int) == sep_sum(*self, boids@.take(i as int)),
                total <= i,
                abs_val(avg.x as int) <= 48_000_000_000 * total,
                abs_val(avg.y as int) <= 48_000_000_000 * total,
            decreases n - i,
        {
            let b = &boids[i];
            proof {
                lemma_take_succ(boids@, i as int);
            }
            let d = Point::distance(&self.position, &b.position);
            if self.id != b.id && d < PERCEPTION_RADIUS {
                proof {
                    assert((d as int) * (d as int) < 2_500_000_000) by (nonlinear_arith)
                        requires
                            0 <= d < 50000;
                }
                let dsq: i64 = ((d as u64 * d as u64) / (SCALE as u64)) as i64;
                if dsq >= 1 {
                    let mut diff = Point {
                        x: self.position.x - b.position.x,
                        y: self.position.y - b.position.y,
                    };
                    proof {
                        assert(abs_val(diff.x as int) * SCALE <= abs_val(dsq as int)
                            * 48_000_000_000 && abs_val(diff.y as int) * SCALE <= abs_val(
                            dsq as int,
                        ) * 48_000_000_000) by (nonlinear_arith)
                            requires
                                abs_val(diff.x as int) <= 4_800_000,
                                abs_val(diff.y as int) <= 4_800_000,
                                1 <= dsq,
                                SCALE == 10000;
                        crate::point::lemma_div_coord_bound(
                            diff.x as int,
                            dsq as int,
                            48_000_000_000,
                        );
                        crate::point::lemma_div_coord_bound(
                            diff.y as int,
                            dsq as int,
                            48_000_000_000,
                        );
                    }
                    diff.div(dsq);
                    avg.add(diff);
                    total = total + 1;
                }
            }
            i = i + 1;
        }
        proof {
            assert(boids@.take(n as int) =~= boids@);
        }
        if total > 0 {
            let cnt = total as i64;
            proof {
                assert(1 <= (cnt as int) * SCALE <= 1_000_000_000 && abs_val(avg.x as int)
                    * SCALE <= abs_val((cnt as int) * SCALE) * 48_000_000_000 && abs_val(
                    avg.y as int,
                ) * SCALE <= abs_val((cnt as int) * SCALE) * 48_000_000_000)
                    by (nonlinear_arith)
                    requires
                        abs_val(avg.x as int) <= 48_000_000_000 * total,
                        abs_val(avg.y as int) <= 48_000_000_000 * total,
                        cnt == total,
                        1 <= total <= 100000,
                        SCALE == 10000;
                crate::point::lemma_div_coord_bound(
                    avg.x as int,
                    (cnt as int) * SCALE,
                    48_000_000_000,
                );
                crate::point::lemma_div_coord_bound(
                    avg.y as int,
                    (cnt as int) * SCALE,
                    48_000_000_000,
                );
            }
            avg.div(cnt * SCALE);
            avg.set_magniute(MAX_SPEED);
            avg.sub(self.velocity);
            avg.limit(MAX_FORCE);
        }
        avg
    }
}

/// After the wrap, a coordinate that did not start in the open sliver
/// `(FIELD_SIZE - SCALE, FIELD_SIZE)` lies inside the field. A coordinate in
/// that sliver — less than one pixel short of the far edge — is sent just
/// below zero instead, and only the next frame's wrap brings it back.
pub proof fn lemma_edges_in_field(x: int)
    requires
        (-FIELD_SIZE <= x <= FIELD_SIZE - SCALE) || (FIELD_SIZE <= x < 2 * FIELD_SIZE),
    ensures
        0 <= wrap_coord(x) < FIELD_SIZE,
{
}

} // verus!
