//! Two-dimensional integer geometry: points, per-tick velocities, and
//! headings.
//!
//! Coordinates are plain `i64` world units.  A [`Heading`] is a direction,
//! read as the full-circle angle `atan2(y, x)`; snapshot producers encode an
//! angle as a unit vector scaled by [`HEADING_SCALE`], which keeps every
//! operation here exact.  Division throughout is truncating division,
//! written in specifications with [`tdiv`].

use vstd::arithmetic::div_mod::{
    lemma_div_basics_4, lemma_div_basics_5, lemma_div_is_ordered, lemma_div_multiples_vanish,
};
use vstd::prelude::*;

use crate::AnalyzerError;

verus! {

/// Fixed-point scale of a heading: a heading encodes a unit direction as
/// `(cos * HEADING_SCALE, sin * HEADING_SCALE)`, rounded to integers.
pub const HEADING_SCALE: i64 = 1000;

/// Largest magnitude the library accepts for a world coordinate or a
/// velocity component handed in from outside.  The bound keeps every
/// intermediate product of the collision forecast inside `i128`.
pub const COORD_LIMIT: i64 = 1_000_000_000;

/// Largest timestamp and largest prediction horizon the library accepts,
/// for the same reason as [`COORD_LIMIT`].
pub const TIME_LIMIT: u64 = 1_000_000_000;

/// Truncating division (rounding toward zero), the semantics of Rust's `/`
/// on integers, defined for a positive divisor.
pub open spec fn tdiv(a: int, b: int) -> int
    recommends
        b > 0,
{
    if a >= 0 {
        a / b
    } else {
        -((-a) / b)
    }
}

/// Magnitude of an integer.
pub open spec fn mag(a: int) -> int {
    if a >= 0 {
        a
    } else {
        -a
    }
}

/// Truncating division never grows the magnitude of the dividend, and it
/// keeps the dividend's sign.
pub proof fn lemma_tdiv_bounds(a: int, b: int)
    requires
        b >= 1,
    ensures
        mag(tdiv(a, b)) <= mag(a),
        a >= 0 ==> tdiv(a, b) >= 0,
        a <= 0 ==> tdiv(a, b) <= 0,
{
    if a >= 0 {
        lemma_div_basics_4(a, b);
        lemma_div_basics_5(a, b);
    } else {
        lemma_div_basics_4(-a, b);
        lemma_div_basics_5(-a, b);
    }
}

/// Truncating division is monotone in a non-negative dividend.
pub proof fn lemma_tdiv_ordered(a1: int, a2: int, b: int)
    requires
        0 <= a1 <= a2,
        b >= 1,
    ensures
        tdiv(a1, b) <= tdiv(a2, b),
{
    lemma_div_is_ordered(a1, a2, b);
}

/// Dividing a scaled value by its scale returns the value:
/// `tdiv(v * s, s) == v` for a positive scale.
pub proof fn lemma_tdiv_scale_cancel(v: int, s: int)
    requires
        s >= 1,
    ensures
        tdiv(v * s, s) == v,
{
    if v >= 0 {
        lemma_div_multiples_vanish(v, s);
        assert(v * s >= 0) by (nonlinear_arith)
            requires v >= 0 && s >= 1;
        assert(v * s == s * v);
    } else {
        lemma_div_multiples_vanish(-v, s);
        assert(v * s < 0) by (nonlinear_arith)
            requires v < 0 && s >= 1;
        assert(-(v * s) == s * (-v)) by (nonlinear_arith);
    }
}

/// Truncating division of `a` by `b`, computed through unsigned division so
/// that each machine division has a non-negative dividend.
pub(crate) fn div_trunc(a: i64, b: u64) -> (r: i64)
    requires
        b > 0,
        a > i64::MIN,
    ensures
        r == tdiv(a as int, b as int),
        mag(r as int) <= mag(a as int),
{
    proof {
        lemma_tdiv_bounds(a as int, b as int);
    }
    if a >= 0 {
        let q: u64 = (a as u64) / b;
        q as i64
    } else {
        let q: u64 = ((-a) as u64) / b;
        -(q as i64)
    }
}

/// A point of the game world.
#[derive(Clone, Copy, Debug, PartialEq, Eq, Structural)]
pub struct Position {
    pub x: i64,
    pub y: i64,
}

/// A per-tick rate of motion.
#[derive(Clone, Copy, Debug, PartialEq, Eq, Structural)]
pub struct Velocity {
    pub dx: i64,
    pub dy: i64,
}

/// A direction, read as the full-circle angle `atan2(y, x)`.  Only the
/// direction of the vector is meaningful; its length is not.
///
/// Snapshot producers encode an angle of `a` radians as the fixed-point
/// unit vector `(cos a * HEADING_SCALE, sin a * HEADING_SCALE)`.  A heading
/// returned by a bearing query instead carries the raw coordinate
/// differences, which name the same direction at a different length.
#[derive(Clone, Copy, Debug, PartialEq, Eq, Structural)]
pub struct Heading {
    pub x: i64,
    pub y: i64,
}

/// A coordinate the library accepts from outside.
pub open spec fn in_coord_range(v: int) -> bool {
    -COORD_LIMIT <= v <= COORD_LIMIT
}

/// The squared Euclidean distance between two points.
pub open spec fn dist_sq(a: Position, b: Position) -> int {
    (b.x - a.x) * (b.x - a.x) + (b.y - a.y) * (b.y - a.y)
}

impl Position {
    /// Whether both coordinates are within [`COORD_LIMIT`].
    pub open spec fn wf(self) -> bool {
        in_coord_range(self.x as int) && in_coord_range(self.y as int)
    }

    pub fn new(x: i64, y: i64) -> (r: Self)
        ensures
            r == (Position { x, y }),
    {
        Position { x, y }
    }

    /// The Euclidean distance to `other`, rounded down to an integer:
    /// the unique `r >= 0` with `r^2 <= dist_sq < (r + 1)^2`.
    pub fn distance(&self, other: &Position) -> (r: i64)
        requires
            self.wf(),
            other.wf(),
        ensures
            0 <= r,
            r * r <= dist_sq(*self, *other),
            dist_sq(*self, *other) < (r + 1) * (r + 1),
    {
        let dx: i64 = other.x - self.x;
        let dy: i64 = other.y - self.y;
        proof {
            assert(0 <= dx * dx <= 4_000_000_000_000_000_000) by (nonlinear_arith)
                requires -2_000_000_000 <= dx <= 2_000_000_000;
            assert(0 <= dy * dy <= 4_000_000_000_000_000_000) by (nonlinear_arith)
                requires -2_000_000_000 <= dy <= 2_000_000_000;
        }
        let sq: u64 = (dx * dx + dy * dy) as u64;
        let r: u64 = isqrt(sq);
        r as i64
    }

    /// The bearing from `self` to `other`: the heading whose angle is the
    /// two-argument arctangent of `(other.y - self.y, other.x - self.x)`,
    /// carried exactly as that coordinate-difference vector.
    pub fn angle_to(&self, other: &Position) -> (r: Heading)
        requires
            self.wf(),
            other.wf(),
        ensures
            r == (Heading { x: (other.x - self.x) as i64, y: (other.y - self.y) as i64 }),
    {
        Heading { x: other.x - self.x, y: other.y - self.y }
    }

    /// The average velocity of a move from `self` to `dest` taking
    /// `duration` ticks: `(dest - self) / duration`, component-wise.
    /// A zero-duration interval is a degenerate interval, not a division.
    pub fn velocity_to(&self, dest: &Position, duration: u64) -> (r: Result<
        Velocity,
        AnalyzerError,
    >)
        requires
            self.wf(),
            dest.wf(),
        ensures
            duration == 0 ==> r == Err::<Velocity, AnalyzerError>(AnalyzerError::DegenerateInterval),
            duration > 0 ==> r == Ok::<Velocity, AnalyzerError>(
                Velocity {
                    dx: tdiv(dest.x - self.x, duration as int) as i64,
                    dy: tdiv(dest.y - self.y, duration as int) as i64,
                },
            ),
    {
        if duration == 0 {
            return Err(AnalyzerError::DegenerateInterval);
        }
        proof {
            lemma_tdiv_bounds(dest.x - self.x, duration as int);
            lemma_tdiv_bounds(dest.y - self.y, duration as int);
        }
        Ok(Velocity {
            dx: div_trunc(dest.x - self.x, duration),
            dy: div_trunc(dest.y - self.y, duration),
        })
    }

    /// The point reached from `self` after moving at `vel` for `duration`
    /// ticks: `self + vel * duration`, component-wise.
    pub fn project(&self, vel: &Velocity, duration: u64) -> (r: Position)
        requires
            self.wf(),
            vel.wf(),
            duration <= TIME_LIMIT,
        ensures
            r == (Position {
                x: (self.x + vel.dx * duration) as i64,
                y: (self.y + vel.dy * duration) as i64,
            }),
    {
        proof {
            assert(mag(vel.dx * duration) <= 1_000_000_000_000_000_000) by (nonlinear_arith)
                requires
                    -1_000_000_000 <= vel.dx <= 1_000_000_000,
                    0 <= duration <= 1_000_000_000,
            ;
            assert(mag(vel.dy * duration) <= 1_000_000_000_000_000_000) by (nonlinear_arith)
                requires
                    -1_000_000_000 <= vel.dy <= 1_000_000_000,
                    0 <= duration <= 1_000_000_000,
            ;
        }
        Position { x: self.x + vel.dx * (duration as i64), y: self.y + vel.dy * (duration as i64) }
    }
}

impl Velocity {
    /// Whether both components are within [`COORD_LIMIT`].
    pub open spec fn wf(self) -> bool {
        in_coord_range(self.dx as int) && in_coord_range(self.dy as int)
    }

    pub fn new(dx: i64, dy: i64) -> (r: Self)
        ensures
            r == (Velocity { dx, dy }),
    {
        Velocity { dx, dy }
    }

    /// The zero velocity.
    pub fn zeros() -> (r: Self)
        ensures
            r == (Velocity { dx: 0i64, dy: 0i64 }),
    {
        Velocity { dx: 0, dy: 0 }
    }

    /// The velocity of magnitude `speed` in the direction of `angle`, a
    /// fixed-point unit heading: `speed * angle / HEADING_SCALE`,
    /// component-wise with truncating division.
    pub fn with_angle(angle: &Heading, speed: i64) -> (r: Velocity)
        requires
            angle.unit_scaled(),
            0 <= speed <= COORD_LIMIT,
        ensures
            r == (Velocity {
                dx: tdiv(speed * angle.x, HEADING_SCALE as int) as i64,
                dy: tdiv(speed * angle.y, HEADING_SCALE as int) as i64,
            }),
            r.wf(),
    {
        proof {
            assert(mag(speed * angle.x) <= speed * 1000) by (nonlinear_arith)
                requires 0 <= speed, -1000 <= angle.x <= 1000;
            assert(mag(speed * angle.y) <= speed * 1000) by (nonlinear_arith)
                requires 0 <= speed, -1000 <= angle.y <= 1000;
            lemma_tdiv_bounds(speed * angle.x, HEADING_SCALE as int);
            lemma_tdiv_bounds(speed * angle.y, HEADING_SCALE as int);
            lemma_tdiv_scale_cancel(speed as int, HEADING_SCALE as int);
            lemma_tdiv_ordered(mag(speed * angle.x), speed * 1000, HEADING_SCALE as int);
            lemma_tdiv_ordered(mag(speed * angle.y), speed * 1000, HEADING_SCALE as int);
        }
        Velocity {
            dx: div_trunc(speed * angle.x, HEADING_SCALE as u64),
            dy: div_trunc(speed * angle.y, HEADING_SCALE as u64),
        }
    }

    /// The component-wise absolute value, a direction-free measure of
    /// motion intensity.
    pub fn abs(&self) -> (r: Velocity)
        requires
            self.dx > i64::MIN,
            self.dy > i64::MIN,
        ensures
            r == (Velocity { dx: mag(self.dx as int) as i64, dy: mag(self.dy as int) as i64 }),
    {
        Velocity {
            dx: if self.dx < 0 { -self.dx } else { self.dx },
            dy: if self.dy < 0 { -self.dy } else { self.dy },
        }
    }

    /// The component-wise sum, for accumulating averages.
    pub fn plus(&self, other: &Velocity) -> (r: Velocity)
        requires
            i64::MIN <= self.dx + other.dx <= i64::MAX,
            i64::MIN <= self.dy + other.dy <= i64::MAX,
        ensures
            r == (Velocity { dx: (self.dx + other.dx) as i64, dy: (self.dy + other.dy) as i64 }),
    {
        Velocity { dx: self.dx + other.dx, dy: self.dy + other.dy }
    }

    /// The component-wise truncating division by a positive count, for
    /// finishing averages.
    pub fn div(&self, n: u64) -> (r: Velocity)
        requires
            n > 0,
            self.dx > i64::MIN,
            self.dy > i64::MIN,
        ensures
            r == (Velocity {
                dx: tdiv(self.dx as int, n as int) as i64,
                dy: tdiv(self.dy as int, n as int) as i64,
            }),
    {
        proof {
            lemma_tdiv_bounds(self.dx as int, n as int);
            lemma_tdiv_bounds(self.dy as int, n as int);
        }
        Velocity { dx: div_trunc(self.dx, n), dy: div_trunc(self.dy, n) }
    }
}

impl Heading {
    /// Whether the heading is in the fixed-point unit encoding: both
    /// components within [`HEADING_SCALE`] in magnitude.
    pub open spec fn unit_scaled(self) -> bool {
        -HEADING_SCALE <= self.x <= HEADING_SCALE && -HEADING_SCALE <= self.y <= HEADING_SCALE
    }

    pub fn new(x: i64, y: i64) -> (r: Self)
        ensures
            r == (Heading { x, y }),
    {
        Heading { x, y }
    }
}

/// The integer square root of `n`: the unique `r` with
/// `r^2 <= n < (r + 1)^2`, found by binary search.
pub(crate) fn isqrt(n: u64) -> (r: u64)
    requires
        n <= 8_000_000_000_000_000_000,
    ensures
        r * r <= n,
        n < (r + 1) * (r + 1),
        r < 3_000_000_000,
{
    let mut lo: u64 = 0;
    let mut hi: u64 = 3_000_000_000;
    while hi - lo > 1
        invariant
            lo < hi <= 3_000_000_000,
            lo * lo <= n,
            n < hi * hi,
        decreases hi - lo,
    {
        let mid: u64 = lo + (hi - lo) / 2;
        proof {
            assert(mid * mid <= 9_000_000_000_000_000_000) by (nonlinear_arith)
                requires 0 <= mid <= 3_000_000_000;
        }
        if mid * mid <= n {
            lo = mid;
        } else {
            hi = mid;
        }
    }
    lo
}

} // verus!
