use vstd::arithmetic::div_mod::lemma_div_pos_is_pos;
use vstd::arithmetic::div_mod::lemma_fundamental_div_mod;
use vstd::arithmetic::div_mod::lemma_mod_bound;
use vstd::arithmetic::div_mod::lemma_multiply_divide_le;
use vstd::prelude::*;

verus! {

/// Coordinates are fixed-point numbers: an `i64` counts ten-thousandths of a
/// pixel, so the value `1.5` is stored as `15000`.
pub const SCALE: i64 = 10000;

/// Pixel extent of the square toroidal field.
pub const SCREEN_SIZE: i64 = 160;

/// Side of the field in fixed-point coordinates.
pub const FIELD_SIZE: i64 = 1600000;

/// A 2D vector in fixed-point coordinates.
#[derive(Clone, Copy, Debug, PartialEq, Eq, Structural)]
pub struct Point {
    pub x: i64,
    pub y: i64,
}

pub open spec fn sq(x: int) -> int {
    x * x
}

pub open spec fn abs_val(x: int) -> int {
    if x < 0 {
        -x
    } else {
        x
    }
}

pub open spec fn min_val(a: int, b: int) -> int {
    if a <= b {
        a
    } else {
        b
    }
}

/// Squared magnitude of a vector.
pub open spec fn mag_sq(p: Point) -> int {
    sq(p.x as int) + sq(p.y as int)
}

/// The integer square root, rounded toward zero.
pub open spec fn floor_sqrt(n: int) -> int
    decreases n,
{
    if n < 1 {
        0
    } else {
        let r = floor_sqrt(n - 1);
        if (r + 1) * (r + 1) <= n {
            r + 1
        } else {
            r
        }
    }
}

proof fn lemma_sq_monotonic(a: int, b: int)
    by (nonlinear_arith)
    requires
        0 <= a <= b,
    ensures
        a * a <= b * b,
{
}

/// `floor_sqrt(n)` is the unique `r >= 0` with `r * r <= n < (r + 1) * (r + 1)`.
pub proof fn lemma_floor_sqrt(n: int)
    requires
        0 <= n,
    ensures
        0 <= floor_sqrt(n),
        floor_sqrt(n) * floor_sqrt(n) <= n,
        n < (floor_sqrt(n) + 1) * (floor_sqrt(n) + 1),
    decreases n,
{
    if n >= 1 {
        lemma_floor_sqrt(n - 1);
        let r = floor_sqrt(n - 1);
        if (r + 1) * (r + 1) <= n {
            assert((r + 2) * (r + 2) > n) by (nonlinear_arith)
                requires
                    0 <= r,
                    n - 1 < (r + 1) * (r + 1),
                    (r + 1) * (r + 1) <= n;
        }
    }
}

pub proof fn lemma_floor_sqrt_unique(n: int, r: int)
    requires
        0 <= r,
        r * r <= n,
        n < (r + 1) * (r + 1),
    ensures
        r == floor_sqrt(n),
{
    lemma_floor_sqrt(n);
    let f = floor_sqrt(n);
    if r < f {
        lemma_sq_monotonic(r + 1, f);
    }
    if f < r {
        lemma_sq_monotonic(f + 1, r);
    }
}

/// The square root grows with its argument.
pub proof fn lemma_floor_sqrt_monotonic(a: int, b: int)
    requires
        0 <= a <= b,
    ensures
        floor_sqrt(a) <= floor_sqrt(b),
{
    lemma_floor_sqrt(a);
    lemma_floor_sqrt(b);
    if floor_sqrt(b) < floor_sqrt(a) {
        lemma_sq_monotonic(floor_sqrt(b) + 1, floor_sqrt(a));
    }
}

/// Integer square root by binary search, rounded toward zero.
fn isqrt(n: u128) -> (r: u64)
    requires
        n <= 0x8000_0000_0000_0000_0000_0000_0000_0000,
    ensures
        r == floor_sqrt(n as int),
{
    if n == 0 {
        proof {
            lemma_floor_sqrt_unique(n as int, 0);
        }
        return 0;
    }
    let mut lo: u64 = 0;
    let mut hi: u64 = 0xffff_ffff_ffff_ffff;
    proof {
        assert((hi as int) * (hi as int) > n as int) by (nonlinear_arith)
            requires
                hi == 0xffff_ffff_ffff_ffff,
                n <= 0x8000_0000_0000_0000_0000_0000_0000_0000;
    }
    while lo + 1 < hi
        invariant
            lo < hi,
            (lo as int) * (lo as int) <= n as int,
            (hi as int) * (hi as int) > n as int,
        decreases hi - lo,
    {
        let mid: u64 = lo + (hi - lo) / 2;
        proof {
            assert((mid as int) * (mid as int) <= 0xffff_ffff_ffff_ffff_ffff_ffff_ffff_ffff)
                by (nonlinear_arith);
        }
        if (mid as u128) * (mid as u128) <= n {
            lo = mid;
        } else {
            hi = mid;
        }
    }
    proof {
        lemma_floor_sqrt_unique(n as int, lo as int);
    }
    lo
}

/// The pair of coordinates of a vector, as unbounded integers.
pub open spec fn pt(p: Point) -> (int, int) {
    (p.x as int, p.y as int)
}

/// Rescaling one coordinate to a new radius `r`: multiply by `r`, divide by
/// the old magnitude `m`, rounding toward zero.
pub open spec fn scale_coord(x: int, r: int, m: int) -> int {
    if x >= 0 {
        (x * r) / m
    } else {
        -(((-x) * r) / m)
    }
}

/// The vector rescaled to radius `r` while keeping its direction. The zero
/// vector has no direction of its own; its angle is taken as zero, so it is
/// sent to `(r, 0)`.
pub open spec fn set_mag_pt(p: (int, int), r: int) -> (int, int) {
    if p.0 == 0 && p.1 == 0 {
        (r, 0)
    } else {
        let m = floor_sqrt(p.0 * p.0 + p.1 * p.1);
        (scale_coord(p.0, r, m), scale_coord(p.1, r, m))
    }
}

/// The vector unchanged if its magnitude is at most `r`, else rescaled to `r`.
pub open spec fn limit_pt(p: (int, int), r: int) -> (int, int) {
    if p.0 * p.0 + p.1 * p.1 <= r * r {
        p
    } else {
        set_mag_pt(p, r)
    }
}

/// Fixed-point division of one coordinate by the scalar `n`, rounded toward
/// zero.
pub open spec fn div_coord(x: int, n: int) -> int {
    let q = (abs_val(x) * SCALE) / abs_val(n);
    if (x >= 0) == (n > 0) {
        q
    } else {
        -q
    }
}

/// Distance of two coordinates on one axis of the torus: the shorter of the
/// direct gap and the gap around the edge.
pub open spec fn axis_dist(a: int, b: int) -> int {
    min_val(abs_val(a - b), FIELD_SIZE - abs_val(a - b))
}

/// Toroidal distance: the two axis distances, combined Euclidean-wise.
pub open spec fn spec_distance(a: Point, b: Point) -> int {
    floor_sqrt(sq(axis_dist(a.x as int, b.x as int)) + sq(axis_dist(a.y as int, b.y as int)))
}

proof fn lemma_abs_sq(x: int)
    by (nonlinear_arith)
    ensures
        abs_val(x) * abs_val(x) == x * x,
        0 <= x * x,
{
}

/// A square is exactly inverted by the integer square root.
pub proof fn lemma_floor_sqrt_exact(a: int)
    requires
        0 <= a,
    ensures
        floor_sqrt(a * a) == a,
{
    assert(a * a < (a + 1) * (a + 1)) by (nonlinear_arith)
        requires
            0 <= a;
    assert(0 <= a * a) by (nonlinear_arith);
    lemma_floor_sqrt_unique(a * a, a);
}

/// No coordinate exceeds the magnitude of its vector.
proof fn lemma_coord_le_mag(x: int, y: int)
    ensures
        abs_val(x) <= floor_sqrt(x * x + y * y),
        abs_val(y) <= floor_sqrt(x * x + y * y),
{
    let a = abs_val(x);
    let b = abs_val(y);
    assert(a * a == x * x && b * b == y * y && 0 <= a * a && 0 <= b * b) by (nonlinear_arith)
        requires
            a == abs_val(x),
            b == abs_val(y);
    lemma_floor_sqrt_exact(a);
    lemma_floor_sqrt_exact(b);
    lemma_floor_sqrt_monotonic(a * a, x * x + y * y);
    lemma_floor_sqrt_monotonic(b * b, x * x + y * y);
}

/// Rounded rescaling shrinks the product against the old magnitude and keeps
/// the sign of the coordinate.
proof fn lemma_scale_coord_props(x: int, r: int, m: int)
    requires
        0 <= r,
        1 <= m,
    ensures
        abs_val(scale_coord(x, r, m)) == (abs_val(x) * r) / m,
        m * abs_val(scale_coord(x, r, m)) <= abs_val(x) * r,
        abs_val(x) <= m ==> abs_val(scale_coord(x, r, m)) <= r,
        x >= 0 ==> scale_coord(x, r, m) >= 0,
        x < 0 ==> scale_coord(x, r, m) <= 0,
{
    let a = abs_val(x) * r;
    assert(0 <= a && (x >= 0 ==> x * r == a) && (x < 0 ==> (-x) * r == a)) by (nonlinear_arith)
        requires
            a == abs_val(x) * r,
            0 <= r;
    lemma_div_pos_is_pos(a, m);
    assert(abs_val(scale_coord(x, r, m)) == a / m);
    lemma_fundamental_div_mod(a, m);
    lemma_mod_bound(a, m);
    if abs_val(x) <= m {
        assert(a <= m * r) by (nonlinear_arith)
            requires
                a == abs_val(x) * r,
                abs_val(x) <= m,
                0 <= r;
        lemma_multiply_divide_le(a, m, r);
    }
}

/// Rescaling a nonzero vector to radius `r <= ` its magnitude gives a vector
/// whose squared magnitude is at most `r * r + 2 * r`: the magnitude is `r`
/// up to rounding, never more than one unit over.
pub proof fn lemma_set_mag_bound(p: (int, int), r: int)
    requires
        0 <= r,
        1 <= p.0 * p.0 + p.1 * p.1,
        r <= floor_sqrt(p.0 * p.0 + p.1 * p.1),
    ensures
        ({
            let q = set_mag_pt(p, r);
            q.0 * q.0 + q.1 * q.1 <= r * r + 2 * r
        }),
{
    let s = p.0 * p.0 + p.1 * p.1;
    let m = floor_sqrt(s);
    lemma_floor_sqrt(s);
    assert(!(p.0 == 0 && p.1 == 0));
    lemma_scale_coord_props(p.0, r, m);
    lemma_scale_coord_props(p.1, r, m);
    let q = set_mag_pt(p, r);
    lemma_abs_sq(q.0);
    lemma_abs_sq(q.1);
    lemma_abs_sq(p.0);
    lemma_abs_sq(p.1);
    assert(q.0 * q.0 * (m * m) <= p.0 * p.0 * (r * r)) by (nonlinear_arith)
        requires
            m * abs_val(q.0) <= abs_val(p.0) * r,
            0 <= abs_val(q.0),
            0 <= abs_val(p.0),
            0 <= r,
            0 <= m,
            abs_val(q.0) * abs_val(q.0) == q.0 * q.0,
            abs_val(p.0) * abs_val(p.0) == p.0 * p.0;
    assert(q.1 * q.1 * (m * m) <= p.1 * p.1 * (r * r)) by (nonlinear_arith)
        requires
            m * abs_val(q.1) <= abs_val(p.1) * r,
            0 <= abs_val(q.1),
            0 <= abs_val(p.1),
            0 <= r,
            0 <= m,
            abs_val(q.1) * abs_val(q.1) == q.1 * q.1,
            abs_val(p.1) * abs_val(p.1) == p.1 * p.1;
    assert((q.0 * q.0 + q.1 * q.1) * (m * m) <= s * (r * r)) by (nonlinear_arith)
        requires
            q.0 * q.0 * (m * m) <= p.0 * p.0 * (r * r),
            q.1 * q.1 * (m * m) <= p.1 * p.1 * (r * r),
            s == p.0 * p.0 + p.1 * p.1;
    assert(q.0 * q.0 + q.1 * q.1 <= r * r + 2 * r) by (nonlinear_arith)
        requires
            (q.0 * q.0 + q.1 * q.1) * (m * m) <= s * (r * r),
            s < (m + 1) * (m + 1),
            0 <= q.0 * q.0 + q.1 * q.1,
            1 <= m,
            0 <= r <= m;
}

fn abs_u128(x: i64) -> (a: u128)
    ensures
        a == abs_val(x as int),
{
    if x >= 0 {
        x as u128
    } else {
        (-(x as i128)) as u128
    }
}

/// Rescaling keeps the direction: the rescaled vector is collinear with the
/// input up to rounding — the cross product of the two is smaller than the
/// sum of the input's coordinate magnitudes — and no coordinate changes its
/// side of zero.
pub proof fn lemma_set_mag_direction(p: (int, int), r: int)
    requires
        0 <= r,
        1 <= p.0 * p.0 + p.1 * p.1,
    ensures
        ({
            let q = set_mag_pt(p, r);
            &&& abs_val(q.0 * p.1 - q.1 * p.0) < abs_val(p.0) + abs_val(p.1)
            &&& (p.0 >= 0 ==> q.0 >= 0)
            &&& (p.0 <= 0 ==> q.0 <= 0)
            &&& (p.1 >= 0 ==> q.1 >= 0)
            &&& (p.1 <= 0 ==> q.1 <= 0)
        }),
{
    let s = p.0 * p.0 + p.1 * p.1;
    let m = floor_sqrt(s);
    lemma_floor_sqrt(s);
    assert(1 <= m) by (nonlinear_arith)
        requires
            0 <= m,
            s < (m + 1) * (m + 1),
            1 <= s;
    lemma_abs_sq(p.0);
    lemma_abs_sq(p.1);
    assert(!(p.0 == 0 && p.1 == 0));
    lemma_scale_coord_props(p.0, r, m);
    lemma_scale_coord_props(p.1, r, m);
    let q = set_mag_pt(p, r);
    let a0 = abs_val(p.0);
    let a1 = abs_val(p.1);
    let qa0 = (a0 * r) / m;
    let qa1 = (a1 * r) / m;
    lemma_fundamental_div_mod(a0 * r, m);
    lemma_fundamental_div_mod(a1 * r, m);
    lemma_mod_bound(a0 * r, m);
    lemma_mod_bound(a1 * r, m);
    let s0 = (a0 * r) % m;
    let s1 = (a1 * r) % m;
    assert(q.0 == (if p.0 >= 0 {
        qa0
    } else {
        -qa0
    }));
    assert(q.1 == (if p.1 >= 0 {
        qa1
    } else {
        -qa1
    }));
    assert(abs_val(q.0 * p.1 - q.1 * p.0) * m <= s0 * a1 + s1 * a0) by (nonlinear_arith)
        requires
            a0 == abs_val(p.0),
            a1 == abs_val(p.1),
            a0 * r == m * qa0 + s0,
            a1 * r == m * qa1 + s1,
            0 <= s0 < m,
            0 <= s1 < m,
            1 <= m,
            0 <= r,
            0 <= qa0,
            0 <= qa1,
            q.0 == (if p.0 >= 0 {
                qa0
            } else {
                -qa0
            }),
            q.1 == (if p.1 >= 0 {
                qa1
            } else {
                -qa1
            });
    assert(abs_val(q.0 * p.1 - q.1 * p.0) < a0 + a1) by (nonlinear_arith)
        requires
            abs_val(q.0 * p.1 - q.1 * p.0) * m <= s0 * a1 + s1 * a0,
            0 <= s0 <= m - 1,
            0 <= s1 <= m - 1,
            1 <= m,
            0 <= a0,
            0 <= a1,
            1 <= a0 + a1,
            0 <= abs_val(q.0 * p.1 - q.1 * p.0);
    if p.0 == 0 {
        assert(abs_val(q.0) == 0) by (nonlinear_arith)
            requires
                m * abs_val(q.0) <= abs_val(p.0) * r,
                abs_val(p.0) == 0,
                0 <= abs_val(q.0),
                1 <= m;
    }
    if p.1 == 0 {
        assert(abs_val(q.1) == 0) by (nonlinear_arith)
            requires
                m * abs_val(q.1) <= abs_val(p.1) * r,
                abs_val(p.1) == 0,
                0 <= abs_val(q.1),
                1 <= m;
    }
}

/// Rescaling hits the asked-for radius `r` up to rounding: against the old
/// magnitude `m`, the new squared magnitude is at most `s * r * r / (m * m)`
/// — within a factor `(1 + 1/m)^2` of `r^2` — and growing every coordinate
/// by one unit already reaches `r` again.
pub proof fn lemma_set_mag_magnitude(p: (int, int), r: int)
    requires
        0 <= r,
        1 <= p.0 * p.0 + p.1 * p.1,
    ensures
        ({
            let q = set_mag_pt(p, r);
            let s = p.0 * p.0 + p.1 * p.1;
            let m = floor_sqrt(s);
            &&& m * m * (q.0 * q.0 + q.1 * q.1) <= s * (r * r)
            &&& (abs_val(q.0) + 1) * (abs_val(q.0) + 1) + (abs_val(q.1) + 1) * (abs_val(q.1) + 1)
                > r * r
        }),
{
    let s = p.0 * p.0 + p.1 * p.1;
    let m = floor_sqrt(s);
    lemma_floor_sqrt(s);
    assert(1 <= m) by (nonlinear_arith)
        requires
            0 <= m,
            s < (m + 1) * (m + 1),
            1 <= s;
    lemma_abs_sq(p.0);
    lemma_abs_sq(p.1);
    assert(!(p.0 == 0 && p.1 == 0));
    lemma_scale_coord_props(p.0, r, m);
    lemma_scale_coord_props(p.1, r, m);
    let q = set_mag_pt(p, r);
    lemma_abs_sq(q.0);
    lemma_abs_sq(q.1);
    let a0 = abs_val(p.0);
    let a1 = abs_val(p.1);
    let b0 = abs_val(q.0);
    let b1 = abs_val(q.1);
    lemma_fundamental_div_mod(a0 * r, m);
    lemma_fundamental_div_mod(a1 * r, m);
    lemma_mod_bound(a0 * r, m);
    lemma_mod_bound(a1 * r, m);
    assert(b0 == (a0 * r) / m);
    assert(b1 == (a1 * r) / m);
    assert(m * m * (q.0 * q.0 + q.1 * q.1) <= s * (r * r)) by (nonlinear_arith)
        requires
            m * b0 <= a0 * r,
            m * b1 <= a1 * r,
            0 <= b0,
            0 <= b1,
            0 <= a0,
            0 <= a1,
            0 <= r,
            0 <= m,
            b0 * b0 == q.0 * q.0,
            b1 * b1 == q.1 * q.1,
            a0 * a0 + a1 * a1 == s;
    assert((b0 + 1) * m > a0 * r && (b1 + 1) * m > a1 * r) by (nonlinear_arith)
        requires
            a0 * r == m * b0 + (a0 * r) % m,
            a1 * r == m * b1 + (a1 * r) % m,
            0 <= (a0 * r) % m < m,
            0 <= (a1 * r) % m < m,
            1 <= m;
    assert((b0 + 1) * (b0 + 1) * (m * m) > (a0 * a0) * (r * r)) by (nonlinear_arith)
        requires
            (b0 + 1) * m > a0 * r,
            0 <= a0,
            0 <= r,
            0 <= m,
            0 <= b0;
    assert((b1 + 1) * (b1 + 1) * (m * m) > (a1 * a1) * (r * r)) by (nonlinear_arith)
        requires
            (b1 + 1) * m > a1 * r,
            0 <= a1,
            0 <= r,
            0 <= m,
            0 <= b1;
    assert(((b0 + 1) * (b0 + 1) + (b1 + 1) * (b1 + 1)) * (m * m) > s * (r * r))
        by (nonlinear_arith)
        requires
            (b0 + 1) * (b0 + 1) * (m * m) > (a0 * a0) * (r * r),
            (b1 + 1) * (b1 + 1) * (m * m) > (a1 * a1) * (r * r),
            a0 * a0 + a1 * a1 == s;
    assert((b0 + 1) * (b0 + 1) + (b1 + 1) * (b1 + 1) > r * r) by (nonlinear_arith)
        requires
            ((b0 + 1) * (b0 + 1) + (b1 + 1) * (b1 + 1)) * (m * m) > s * (r * r),
            m * m <= s,
            1 <= m,
            0 <= r;
}

impl Point {
    /// Component-wise addition in place.
    pub fn add(&mut self, other: Point)
        requires
            i64::MIN <= old(self).x + other.x <= i64::MAX,
            i64::MIN <= old(self).y + other.y <= i64::MAX,
        ensures
            final(self).x == old(self).x + other.x,
            final(self).y == old(self).y + other.y,
    {
        self.x = self.x + other.x;
        self.y = self.y + other.y;
    }

    /// Component-wise subtraction in place.
    pub fn sub(&mut self, other: Point)
        requires
            i64::MIN <= old(self).x - other.x <= i64::MAX,
            i64::MIN <= old(self).y - other.y <= i64::MAX,
        ensures
            final(self).x == old(self).x - other.x,
            final(self).y == old(self).y - other.y,
    {
        self.x = self.x - other.x;
        self.y = self.y - other.y;
    }

    /// Divide both components by the fixed-point scalar `n`, rounding toward
    /// zero. Callers must keep `n` away from zero.
    pub fn div(&mut self, n: i64)
        requires
            n != 0,
            abs_val(old(self).x as int) * SCALE <= abs_val(n as int) * i64::MAX,
            abs_val(old(self).y as int) * SCALE <= abs_val(n as int) * i64::MAX,
        ensures
            final(self).x == div_coord(old(self).x as int, n as int),
            final(self).y == div_coord(old(self).y as int, n as int),
    {
        let an: u128 = if n >= 0 {
            n as u128
        } else {
            (-(n as i128)) as u128
        };
        self.x = Self::div_one(self.x, n, an);
        self.y = Self::div_one(self.y, n, an);
    }

    fn div_one(x: i64, n: i64, an: u128) -> (r: i64)
        requires
            n != 0,
            an == abs_val(n as int),
            abs_val(x as int) * SCALE <= abs_val(n as int) * i64::MAX,
        ensures
            r == div_coord(x as int, n as int),
    {
        let ax: u128 = abs_u128(x);
        proof {
            assert(ax * SCALE < 0x8000_0000_0000_0000_0000_0000_0000_0000) by (nonlinear_arith)
                requires
                    0 <= ax <= 0x8000_0000_0000_0000,
                    SCALE == 10000;
        }
        let q: u128 = ax * (SCALE as u128) / an;
        proof {
            lemma_multiply_divide_le(ax as int * SCALE, an as int, i64::MAX as int);
            lemma_div_pos_is_pos(ax as int * SCALE, an as int);
        }
        let qi: i64 = q as i64;
        if (x >= 0) == (n > 0) {
            qi
        } else {
            -qi
        }
    }

    /// Rescale to the exact radius `radius`, keeping the direction; the old
    /// magnitude is discarded. A zero vector (angle taken as zero) becomes
    /// `(radius, 0)`.
    pub fn set_magniute(&mut self, radius: i64)
        requires
            0 <= radius,
        ensures
            pt(*final(self)) == set_mag_pt(pt(*old(self)), radius as int),
            abs_val(final(self).x as int) <= radius,
            abs_val(final(self).y as int) <= radius,
    {
        let m: u64 = self.magnitude_floor();
        if m == 0 {
            proof {
                lemma_abs_sq(self.x as int);
                lemma_abs_sq(self.y as int);
                lemma_floor_sqrt(mag_sq(*self));
                assert(mag_sq(*self) == 0);
                assert(self.x == 0 && self.y == 0) by (nonlinear_arith)
                    requires
                        (self.x as int) * (self.x as int) + (self.y as int) * (self.y as int)
                            == 0;
            }
            self.x = radius;
            self.y = 0;
        } else {
            proof {
                lemma_coord_le_mag(self.x as int, self.y as int);
                lemma_scale_coord_props(self.x as int, radius as int, m as int);
                lemma_scale_coord_props(self.y as int, radius as int, m as int);
            }
            let nx = Self::scale_one(self.x, radius, m);
            let ny = Self::scale_one(self.y, radius, m);
            self.x = nx;
            self.y = ny;
        }
    }

    fn scale_one(x: i64, r: i64, m: u64) -> (q: i64)
        requires
            0 <= r,
            1 <= m,
            abs_val(x as int) <= m,
        ensures
            q == scale_coord(x as int, r as int, m as int),
    {
        proof {
            lemma_scale_coord_props(x as int, r as int, m as int);
        }
        let ax: u128 = abs_u128(x);
        proof {
            assert(ax * r < 0x8000_0000_0000_0000_0000_0000_0000_0000) by (nonlinear_arith)
                requires
                    0 <= ax <= 0x8000_0000_0000_0000,
                    0 <= r <= 0x7fff_ffff_ffff_ffff;
        }
        let qa: u128 = ax * (r as u128) / (m as u128);
        let qi: i64 = qa as i64;
        if x >= 0 {
            qi
        } else {
            -qi
        }
    }

    /// The squared magnitude, exactly.
    fn mag_sq_exec(&self) -> (s: u128)
        ensures
            s == mag_sq(*self),
            s <= 0x8000_0000_0000_0000_0000_0000_0000_0000,
    {
        let ax: u128 = abs_u128(self.x);
        let ay: u128 = abs_u128(self.y);
        proof {
            lemma_abs_sq(self.x as int);
            lemma_abs_sq(self.y as int);
            assert(ax * ax + ay * ay <= 0x8000_0000_0000_0000_0000_0000_0000_0000)
                by (nonlinear_arith)
                requires
                    0 <= ax <= 0x8000_0000_0000_0000,
                    0 <= ay <= 0x8000_0000_0000_0000;
        }
        ax * ax + ay * ay
    }

    /// The magnitude, rounded toward zero.
    fn magnitude_floor(&self) -> (m: u64)
        ensures
            m == floor_sqrt(mag_sq(*self)),
    {
        let msq: u128 = self.mag_sq_exec();
        isqrt(msq)
    }

    /// Clamp the magnitude to at most `max_radius`: a vector already within
    /// the limit is returned bit for bit unchanged, a longer one is rescaled
    /// to radius `max_radius` with its direction kept.
    pub fn limit(&mut self, max_radius: i64)
        requires
            0 <= max_radius,
        ensures
            pt(*final(self)) == limit_pt(pt(*old(self)), max_radius as int),
            mag_sq(*final(self)) <= sq(max_radius as int) + 2 * (max_radius as int),
            abs_val(final(self).x as int) <= max_radius,
            abs_val(final(self).y as int) <= max_radius,
    {
        proof {
            assert((max_radius as u128) * (max_radius as u128)
                < 0x8000_0000_0000_0000_0000_0000_0000_0000) by (nonlinear_arith)
                requires
                    0 <= max_radius <= 0x7fff_ffff_ffff_ffff;
        }
        let msq: u128 = self.mag_sq_exec();
        let rsq: u128 = (max_radius as u128) * (max_radius as u128);
        if msq > rsq {
            proof {
                let s = mag_sq(*self);
                let r = max_radius as int;
                lemma_floor_sqrt_exact(r);
                lemma_floor_sqrt_monotonic(r * r, s);
                lemma_set_mag_bound(pt(*self), r);
            }
            self.set_magniute(max_radius);
        } else {
            proof {
                let r = max_radius as int;
                lemma_coord_le_mag(self.x as int, self.y as int);
                lemma_floor_sqrt_exact(r);
                lemma_floor_sqrt_monotonic(mag_sq(*self), r * r);
            }
        }
    }

    /// Toroidal distance between two points on the square field, rounded
    /// toward zero.
    pub fn distance(p1: &Point, p2: &Point) -> (d: i64)
        requires
            -0x2000_0000_0000_0000 <= p1.x <= 0x2000_0000_0000_0000,
            -0x2000_0000_0000_0000 <= p1.y <= 0x2000_0000_0000_0000,
            -0x2000_0000_0000_0000 <= p2.x <= 0x2000_0000_0000_0000,
            -0x2000_0000_0000_0000 <= p2.y <= 0x2000_0000_0000_0000,
        ensures
            d == spec_distance(*p1, *p2),
            0 <= d,
    {
        let dx: i64 = if p1.x >= p2.x {
            p1.x - p2.x
        } else {
            p2.x - p1.x
        };
        let dy: i64 = if p1.y >= p2.y {
            p1.y - p2.y
        } else {
            p2.y - p1.y
        };
        let xd: i64 = if dx <= FIELD_SIZE - dx {
            dx
        } else {
            FIELD_SIZE - dx
        };
        let yd: i64 = if dy <= FIELD_SIZE - dy {
            dy
        } else {
            FIELD_SIZE - dy
        };
        let xa: u128 = abs_u128(xd);
        let ya: u128 = abs_u128(yd);
        proof {
            lemma_abs_sq(xd as int);
            lemma_abs_sq(yd as int);
            assert(xa * xa + ya * ya < 0x4000_0000_0000_0000_0000_0000_0000_0000)
                by (nonlinear_arith)
                requires
                    0 <= xa <= 0x4000_0000_0000_0000,
                    0 <= ya <= 0x4000_0000_0000_0000;
        }
        let s: u128 = xa * xa + ya * ya;
        let m: u64 = isqrt(s);
        proof {
            lemma_floor_sqrt(s as int);
            assert((m as int) * (m as int) <= s as int);
            assert(m < 0x8000_0000_0000_0000) by (nonlinear_arith)
                requires
                    (m as int) * (m as int) <= s as int,
                    s < 0x4000_0000_0000_0000_0000_0000_0000_0000;
        }
        m as i64
    }
}

/// A bound on a fixed-point quotient from a bound on its numerator.
pub proof fn lemma_div_coord_bound(x: int, n: int, c: int)
    requires
        n != 0,
        0 <= c,
        abs_val(x) * SCALE <= abs_val(n) * c,
    ensures
        abs_val(div_coord(x, n)) <= c,
{
    assert(0 <= abs_val(x) * SCALE) by (nonlinear_arith)
        requires
            0 <= abs_val(x),
            SCALE == 10000;
    lemma_div_pos_is_pos(abs_val(x) * SCALE, abs_val(n));
    lemma_multiply_divide_le(abs_val(x) * SCALE, abs_val(n), c);
}

/// Toroidal distance does not depend on the order of its two points.
pub proof fn lemma_distance_symmetric(a: Point, b: Point)
    ensures
        spec_distance(a, b) == spec_distance(b, a),
{
}

/// For points inside the field, the toroidal distance never exceeds half the
/// field's diagonal: its square is at most `2 * (FIELD_SIZE / 2)^2`.
pub proof fn lemma_distance_bound(a: Point, b: Point)
    requires
        0 <= a.x < FIELD_SIZE,
        0 <= a.y < FIELD_SIZE,
        0 <= b.x < FIELD_SIZE,
        0 <= b.y < FIELD_SIZE,
    ensures
        spec_distance(a, b) * spec_distance(a, b) <= 2 * (FIELD_SIZE / 2) * (FIELD_SIZE / 2),
{
    let h = FIELD_SIZE / 2;
    let xd = axis_dist(a.x as int, b.x as int);
    let yd = axis_dist(a.y as int, b.y as int);
    assert(0 <= xd <= h && 0 <= yd <= h);
    assert(sq(xd) + sq(yd) <= 2 * h * h) by (nonlinear_arith)
        requires
            0 <= xd <= h,
            0 <= yd <= h;
    let d = spec_distance(a, b);
    lemma_floor_sqrt(sq(xd) + sq(yd));
    assert(d * d <= 2 * h * h);
    assert(d <= 1131370) by (nonlinear_arith)
        requires
            0 <= d,
            d * d <= 1_280_000_000_000;
}

/// Clamping the magnitude: a vector already within the limit `r` comes out
/// unchanged; a longer one comes out rescaled, with squared magnitude at most
/// `r * r + 2 * r` — the limit, up to rounding — its direction collinear with
/// the input up to rounding, and no coordinate on the other side of zero.
pub proof fn lemma_limit_law(p: (int, int), r: int)
    requires
        0 <= r,
    ensures
        p.0 * p.0 + p.1 * p.1 <= r * r ==> limit_pt(p, r) == p,
        p.0 * p.0 + p.1 * p.1 > r * r ==> ({
            let q = limit_pt(p, r);
            &&& q.0 * q.0 + q.1 * q.1 <= r * r + 2 * r
            &&& abs_val(q.0 * p.1 - q.1 * p.0) < abs_val(p.0) + abs_val(p.1)
            &&& (p.0 >= 0 ==> q.0 >= 0)
            &&& (p.0 <= 0 ==> q.0 <= 0)
            &&& (p.1 >= 0 ==> q.1 >= 0)
            &&& (p.1 <= 0 ==> q.1 <= 0)
        }),
{
    let s = p.0 * p.0 + p.1 * p.1;
    if s > r * r {
        lemma_abs_sq(r);
        lemma_floor_sqrt_exact(r);
        lemma_floor_sqrt_monotonic(r * r, s);
        lemma_set_mag_bound(p, r);
        lemma_set_mag_direction(p, r);
    }
}

} // verus!
