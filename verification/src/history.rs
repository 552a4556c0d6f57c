//! Append-only, bounded time series for a single entity: positions
//! ([`Trajectory`]) and scores ([`ScoreHistory`]), with the derived
//! statistics the estimator queries.
//!
//! Both histories keep at most [`MAX_SAMPLES`] samples: a push at capacity
//! drops the oldest sample first, so memory stays bounded for the life of a
//! session.  Timestamps never decrease along a history.

use vstd::arithmetic::div_mod::lemma_div_basics_1;
use vstd::prelude::*;

use crate::geometry::{mag, tdiv, Position, Velocity, TIME_LIMIT};
use crate::AnalyzerError;

verus! {

/// Retention bound of a history: a push at this size evicts the oldest
/// sample.
pub const MAX_SAMPLES: usize = 1024;

/// Timestamps never decrease along the sample sequence.
pub open spec fn times_ordered<T>(s: Seq<(T, u64)>) -> bool {
    forall|i: int, j: int| #![trigger s[i], s[j]] 0 <= i <= j < s.len() ==> s[i].1 <= s[j].1
}

/// The sample sequence after a bounded push: append, dropping the oldest
/// sample first when the history is at `max`.
pub open spec fn pushed<T>(s: Seq<T>, x: T, max: int) -> Seq<T> {
    if s.len() < max {
        s.push(x)
    } else {
        s.remove(0).push(x)
    }
}

/// A time series of positions for one entity.
pub struct Trajectory {
    pub positions: Vec<(Position, u64)>,
}

impl View for Trajectory {
    type V = Seq<(Position, u64)>;

    open spec fn view(&self) -> Seq<(Position, u64)> {
        self.positions@
    }
}

/// The finite-difference velocity over the two most recent samples: the
/// zero vector when fewer than two samples exist (no velocity signal yet),
/// a degenerate interval when the two samples share a timestamp.
pub open spec fn last_velocity_spec(s: Seq<(Position, u64)>) -> Result<Velocity, AnalyzerError> {
    if s.len() < 2 {
        Ok(Velocity { dx: 0i64, dy: 0i64 })
    } else {
        let p1 = s[s.len() - 2].0;
        let t1 = s[s.len() - 2].1;
        let p2 = s[s.len() - 1].0;
        let t2 = s[s.len() - 1].1;
        if t1 == t2 {
            Err(AnalyzerError::DegenerateInterval)
        } else {
            Ok(Velocity {
                dx: tdiv(p2.x - p1.x, t2 - t1) as i64,
                dy: tdiv(p2.y - p1.y, t2 - t1) as i64,
            })
        }
    }
}

/// The x component of the finite-difference velocity of step `i`
/// (from sample `i` to sample `i + 1`).
pub open spec fn step_vel_x(s: Seq<(Position, u64)>, i: int) -> int {
    tdiv(s[i + 1].0.x - s[i].0.x, s[i + 1].1 - s[i].1)
}

/// The y component of the finite-difference velocity of step `i`.
pub open spec fn step_vel_y(s: Seq<(Position, u64)>, i: int) -> int {
    tdiv(s[i + 1].0.y - s[i].0.y, s[i + 1].1 - s[i].1)
}

/// The sum of the absolute x velocities of the first `k` steps.
pub open spec fn sum_abs_vx(s: Seq<(Position, u64)>, k: int) -> int
    decreases k,
{
    if k <= 0 {
        0
    } else {
        sum_abs_vx(s, k - 1) + mag(step_vel_x(s, k - 1))
    }
}

/// The sum of the absolute y velocities of the first `k` steps.
pub open spec fn sum_abs_vy(s: Seq<(Position, u64)>, k: int) -> int
    decreases k,
{
    if k <= 0 {
        0
    } else {
        sum_abs_vy(s, k - 1) + mag(step_vel_y(s, k - 1))
    }
}

/// Whether some adjacent pair of samples shares a timestamp, making a
/// per-step velocity undefined.
pub open spec fn degenerate_step<T>(s: Seq<(T, u64)>) -> bool {
    exists|i: int| #![trigger s[i]] 0 <= i < s.len() - 1 && s[i].1 == s[i + 1].1
}

/// The average of the per-step absolute velocities over the whole retained
/// history: a magnitude-only activity signal, not a directional estimate.
/// Zero for fewer than two samples.
pub open spec fn ave_abs_velocity_spec(s: Seq<(Position, u64)>) -> Result<
    Velocity,
    AnalyzerError,
> {
    if s.len() < 2 {
        Ok(Velocity { dx: 0i64, dy: 0i64 })
    } else if degenerate_step(s) {
        Err(AnalyzerError::DegenerateInterval)
    } else {
        Ok(Velocity {
            dx: tdiv(sum_abs_vx(s, s.len() - 1), s.len() - 1) as i64,
            dy: tdiv(sum_abs_vy(s, s.len() - 1), s.len() - 1) as i64,
        })
    }
}

impl Trajectory {
    /// Samples are bounded in number, non-decreasing in time, and within
    /// the coordinate and time ranges the library accepts.
    pub open spec fn wf(self) -> bool {
        &&& self@.len() <= MAX_SAMPLES
        &&& times_ordered(self@)
        &&& forall|i: int|
            0 <= i < self@.len() ==> (#[trigger] self@[i]).0.wf() && self@[i].1 <= TIME_LIMIT
    }

    pub fn new() -> (r: Self)
        ensures
            r@ == Seq::<(Position, u64)>::empty(),
            r.wf(),
    {
        Trajectory { positions: Vec::new() }
    }

    /// Appends a sample, evicting the oldest first when at capacity.
    pub fn push(&mut self, position: Position, time: u64)
        requires
            old(self).wf(),
            position.wf(),
            time <= TIME_LIMIT,
            old(self)@.len() > 0 ==> old(self)@.last().1 <= time,
        ensures
            final(self)@ == pushed(old(self)@, (position, time), MAX_SAMPLES as int),
            final(self).wf(),
            final(self)@.len() >= 1,
            final(self)@.last() == (position, time),
    {
        if self.positions.len() == MAX_SAMPLES {
            self.positions.remove(0);
        }
        self.positions.push((position, time));
    }

    /// The most recent position; `Empty` when no sample exists yet.
    pub fn last_position(&self) -> (r: Result<Position, AnalyzerError>)
        ensures
            self@.len() == 0 ==> r == Err::<Position, AnalyzerError>(AnalyzerError::Empty),
            self@.len() > 0 ==> r == Ok::<Position, AnalyzerError>(self@.last().0),
    {
        if self.positions.len() == 0 {
            Err(AnalyzerError::Empty)
        } else {
            Ok(self.positions[self.positions.len() - 1].0)
        }
    }

    /// The finite-difference velocity over the two most recent samples.
    pub fn last_velocity(&self) -> (r: Result<Velocity, AnalyzerError>)
        requires
            self.wf(),
        ensures
            r == last_velocity_spec(self@),
    {
        let n = self.positions.len();
        if n < 2 {
            return Ok(Velocity::zeros());
        }
        let (p1, t1) = self.positions[n - 2];
        let (p2, t2) = self.positions[n - 1];
        if t1 == t2 {
            return Err(AnalyzerError::DegenerateInterval);
        }
        Ok(Velocity {
            dx: crate::geometry::div_trunc(p2.x - p1.x, t2 - t1),
            dy: crate::geometry::div_trunc(p2.y - p1.y, t2 - t1),
        })
    }

    /// The average per-step absolute velocity across the whole retained
    /// history.
    pub fn ave_abs_velocity(&self) -> (r: Result<Velocity, AnalyzerError>)
        requires
            self.wf(),
        ensures
            r == ave_abs_velocity_spec(self@),
    {
        let ghost s = self@;
        let n = self.positions.len();
        if n < 2 {
            return Ok(Velocity::zeros());
        }
        let mut sx: i64 = 0;
        let mut sy: i64 = 0;
        let mut i: usize = 1;
        while i < n
            invariant
                1 <= i <= n,
                n == s.len(),
                s == self@,
                self.wf(),
                2 <= n <= MAX_SAMPLES,
                forall|k: int| 0 <= k < i - 1 ==> (#[trigger] s[k]).1 != s[k + 1].1,
                sx == sum_abs_vx(s, i - 1),
                sy == sum_abs_vy(s, i - 1),
                0 <= sx <= (i - 1) * 2_000_000_000,
                0 <= sy <= (i - 1) * 2_000_000_000,
            decreases n - i,
        {
            let (p1, t1) = self.positions[i - 1];
            let (p2, t2) = self.positions[i];
            if t1 == t2 {
                proof {
                    assert(degenerate_step(s));
                }
                return Err(AnalyzerError::DegenerateInterval);
            }
            let vx = crate::geometry::div_trunc(p2.x - p1.x, t2 - t1);
            let vy = crate::geometry::div_trunc(p2.y - p1.y, t2 - t1);
            let ax = if vx < 0 {
                -vx
            } else {
                vx
            };
            let ay = if vy < 0 {
                -vy
            } else {
                vy
            };
            proof {
                assert(ax == mag(step_vel_x(s, i - 1)));
                assert(ay == mag(step_vel_y(s, i - 1)));
            }
            sx = sx + ax;
            sy = sy + ay;
            i = i + 1;
        }
        proof {
            assert(!degenerate_step(s));
        }
        Ok(Velocity {
            dx: crate::geometry::div_trunc(sx, (n - 1) as u64),
            dy: crate::geometry::div_trunc(sy, (n - 1) as u64),
        })
    }
}

/// A one-sample trajectory reports the zero velocity: a single snapshot
/// gives no motion signal.  Together with the ingestion contract, which
/// gives a newly created player a one-sample trajectory, this is the
/// first-snapshot behaviour of the estimator.
pub proof fn lemma_single_sample_zero_velocity(s: Seq<(Position, u64)>)
    requires
        s.len() == 1,
    ensures
        last_velocity_spec(s) == Ok::<Velocity, AnalyzerError>(Velocity { dx: 0i64, dy: 0i64 }),
{
}

/// A velocity derived from in-range positions has components no larger in
/// magnitude than the largest coordinate difference.
pub proof fn lemma_last_velocity_bounded(s: Seq<(Position, u64)>)
    requires
        times_ordered(s),
        forall|i: int| 0 <= i < s.len() ==> (#[trigger] s[i]).0.wf(),
    ensures
        (match last_velocity_spec(s) {
            Ok(v) => -2 * crate::geometry::COORD_LIMIT <= v.dx <= 2 * crate::geometry::COORD_LIMIT
                && -2 * crate::geometry::COORD_LIMIT <= v.dy <= 2 * crate::geometry::COORD_LIMIT,
            Err(_) => true,
        }),
{
    if s.len() >= 2 {
        let t1 = s[s.len() - 2].1;
        let t2 = s[s.len() - 1].1;
        if t1 != t2 {
            let p1 = s[s.len() - 2].0;
            let p2 = s[s.len() - 1].0;
            crate::geometry::lemma_tdiv_bounds(p2.x - p1.x, t2 - t1);
            crate::geometry::lemma_tdiv_bounds(p2.y - p1.y, t2 - t1);
        }
    }
}

/// A trajectory whose samples all sit at one position reports the zero
/// average absolute velocity, for any number of samples, provided no two
/// adjacent samples share a timestamp.
pub proof fn lemma_stationary_zero_ave(s: Seq<(Position, u64)>)
    requires
        s.len() >= 2,
        !degenerate_step(s),
        forall|i: int| 0 <= i < s.len() ==> (#[trigger] s[i]).0 == s[0].0,
    ensures
        ave_abs_velocity_spec(s) == Ok::<Velocity, AnalyzerError>(Velocity { dx: 0i64, dy: 0i64 }),
{
    assert forall|k: int| 0 <= k < s.len() - 1 implies (#[trigger] s[k]).1 != s[k + 1].1 by {
        if s[k].1 == s[k + 1].1 {
            assert(degenerate_step(s));
        }
    }
    lemma_stationary_sums_zero(s, s.len() - 1);
    lemma_div_basics_1(s.len() - 1);
}

proof fn lemma_stationary_sums_zero(s: Seq<(Position, u64)>, k: int)
    requires
        0 <= k <= s.len() - 1,
        forall|i: int| 0 <= i < s.len() ==> (#[trigger] s[i]).0 == s[0].0,
        forall|i: int| 0 <= i < s.len() - 1 ==> (#[trigger] s[i]).1 != s[i + 1].1,
    ensures
        sum_abs_vx(s, k) == 0,
        sum_abs_vy(s, k) == 0,
    decreases k,
{
    if k > 0 {
        lemma_stationary_sums_zero(s, k - 1);
        assert(s[k].0 == s[k - 1].0);
        assert(s[k - 1].1 != s[k].1);
        lemma_div_basics_1(s[k].1 - s[k - 1].1);
        assert(step_vel_x(s, k - 1) == 0);
        assert(step_vel_y(s, k - 1) == 0);
    }
}

/// A time series of scores for one entity.
pub struct ScoreHistory {
    inner: Vec<(u32, u64)>,
}

impl View for ScoreHistory {
    type V = Seq<(u32, u64)>;

    closed spec fn view(&self) -> Seq<(u32, u64)> {
        self.inner@
    }
}

/// The score of the most recent sample taken at or before `since`; zero
/// when no sample qualifies (the baseline of a fresh history).
pub open spec fn baseline_of(s: Seq<(u32, u64)>, since: u64) -> int
    decreases s.len(),
{
    if s.len() == 0 {
        0
    } else if s.last().1 <= since {
        s.last().0 as int
    } else {
        baseline_of(s.drop_last(), since)
    }
}

/// The first tick of the lookback window ending at `now`, saturating at
/// tick zero.
pub open spec fn lookback_start(now: u64, lookback: u64) -> u64 {
    if now >= lookback {
        (now - lookback) as u64
    } else {
        0u64
    }
}

/// The linear score forecast: the latest score, plus the delta gathered
/// over the lookback window scaled by `after / lookback`.
pub open spec fn project_spec(s: Seq<(u32, u64)>, after: u64, now: u64, lookback: u64) -> int {
    let delta = s.last().0 - baseline_of(s, lookback_start(now, lookback));
    s.last().0 + tdiv(delta * after, lookback as int)
}

/// An integer clamped into the `u32` range.
pub open spec fn clamp_u32(v: int) -> int {
    if v < 0 {
        0
    } else if v > u32::MAX {
        u32::MAX as int
    } else {
        v
    }
}

impl ScoreHistory {
    /// Samples are bounded in number, non-decreasing in time, and within
    /// the time range the library accepts.
    pub open spec fn wf(self) -> bool {
        &&& self@.len() <= MAX_SAMPLES
        &&& times_ordered(self@)
        &&& forall|i: int| 0 <= i < self@.len() ==> (#[trigger] self@[i]).1 <= TIME_LIMIT
    }

    pub fn new() -> (r: Self)
        ensures
            r@ == Seq::<(u32, u64)>::empty(),
            r.wf(),
    {
        ScoreHistory { inner: Vec::new() }
    }

    /// Appends a sample, evicting the oldest first when at capacity.
    pub fn push(&mut self, score: u32, time: u64)
        requires
            old(self).wf(),
            time <= TIME_LIMIT,
            old(self)@.len() > 0 ==> old(self)@.last().1 <= time,
        ensures
            final(self)@ == pushed(old(self)@, (score, time), MAX_SAMPLES as int),
            final(self).wf(),
            final(self)@.len() >= 1,
            final(self)@.last() == (score, time),
    {
        if self.inner.len() == MAX_SAMPLES {
            self.inner.remove(0);
        }
        self.inner.push((score, time));
    }

    /// The most recent score; `Empty` when no sample exists yet.
    pub fn last_score(&self) -> (r: Result<u32, AnalyzerError>)
        ensures
            self@.len() == 0 ==> r == Err::<u32, AnalyzerError>(AnalyzerError::Empty),
            self@.len() > 0 ==> r == Ok::<u32, AnalyzerError>(self@.last().0),
    {
        if self.inner.len() == 0 {
            Err(AnalyzerError::Empty)
        } else {
            Ok(self.inner[self.inner.len() - 1].0)
        }
    }

    /// The scoring delta since tick `since`: the latest score minus the
    /// baseline, where the baseline is the latest sample at or before
    /// `since`, or zero when none qualifies.  Negative when the score
    /// dropped over the window.
    pub fn score_since(&self, since: u64) -> (r: Result<i64, AnalyzerError>)
        requires
            self.wf(),
        ensures
            self@.len() == 0 ==> r == Err::<i64, AnalyzerError>(AnalyzerError::Empty),
            self@.len() > 0 ==> r == Ok::<i64, AnalyzerError>(
                (self@.last().0 - baseline_of(self@, since)) as i64,
            ),
    {
        let ghost s = self@;
        let n = self.inner.len();
        if n == 0 {
            return Err(AnalyzerError::Empty);
        }
        let last = self.inner[n - 1].0;
        proof {
            assert(s.take(n as int) =~= s);
        }
        let mut i: usize = n;
        while i > 0
            invariant
                0 <= i <= n,
                n == s.len(),
                s == self@,
                baseline_of(s, since) == baseline_of(s.take(i as int), since),
                forall|k: int| i <= k < n ==> (#[trigger] s[k]).1 > since,
                last == s.last().0,
            decreases i,
        {
            let (sc, t) = self.inner[i - 1];
            proof {
                assert(s.take(i as int).last() == s[i - 1]);
                assert(s.take(i as int).drop_last() =~= s.take(i - 1));
            }
            if t <= since {
                proof {
                    assert(s.take(i as int).len() == i);
                    assert(s.take(i as int).last() == (sc, t));
                    assert(baseline_of(s.take(i as int), since) == sc as int);
                    assert(baseline_of(s, since) == sc as int);
                    assert(last == s.last().0);
                }
                return Ok(last as i64 - sc as i64);
            }
            i = i - 1;
        }
        proof {
            assert(s.take(0) =~= Seq::<(u32, u64)>::empty());
        }
        Ok(last as i64)
    }

    /// The linear score forecast `after` ticks ahead of `now`: the delta
    /// gathered over the `lookback` window is extrapolated at its average
    /// rate, then clamped into the `u32` score range.  The lookback window
    /// is a tunable parameter of the estimator's configuration.
    pub fn project(&self, after: u64, now: u64, lookback: u64) -> (r: Result<u32, AnalyzerError>)
        requires
            self.wf(),
            lookback > 0,
            after <= TIME_LIMIT,
        ensures
            self@.len() == 0 ==> r == Err::<u32, AnalyzerError>(AnalyzerError::Empty),
            self@.len() > 0 ==> r == Ok::<u32, AnalyzerError>(
                clamp_u32(project_spec(self@, after, now, lookback)) as u32,
            ),
    {
        let last: u32 = match self.last_score() {
            Ok(v) => v,
            Err(e) => {
                return Err(e);
            },
        };
        let since: u64 = if now >= lookback {
            now - lookback
        } else {
            0
        };
        let delta: i64 = match self.score_since(since) {
            Ok(d) => d,
            Err(_) => {
                proof {
                    assert(false);
                }
                0
            },
        };
        proof {
            lemma_baseline_in_score_range(self@, since);
            assert(mag(delta * after) <= 4_294_967_295 * 1_000_000_000) by (nonlinear_arith)
                requires -4_294_967_295 <= delta <= 4_294_967_295 && 0 <= after <= 1_000_000_000;
            crate::geometry::lemma_tdiv_bounds(delta * after, lookback as int);
        }
        let scaled: i64 = crate::geometry::div_trunc(delta * (after as i64), lookback);
        let proj: i64 = last as i64 + scaled;
        if proj < 0 {
            Ok(0)
        } else if proj > u32::MAX as i64 {
            Ok(u32::MAX)
        } else {
            Ok(proj as u32)
        }
    }
}

/// The baseline score is itself a score from the history (or zero), so it
/// lies in the `u32` range.
pub proof fn lemma_baseline_in_score_range(s: Seq<(u32, u64)>, since: u64)
    ensures
        0 <= baseline_of(s, since) <= u32::MAX,
    decreases s.len(),
{
    if s.len() > 0 && !(s.last().1 <= since) {
        lemma_baseline_in_score_range(s.drop_last(), since);
    }
}

/// When every sample lies after `since`, the baseline is zero, so the
/// delta since `since` equals the latest score itself.
pub proof fn lemma_no_baseline_delta_is_last_score(s: Seq<(u32, u64)>, since: u64)
    requires
        s.len() > 0,
        forall|i: int| 0 <= i < s.len() ==> (#[trigger] s[i]).1 > since,
    ensures
        baseline_of(s, since) == 0,
        s.last().0 - baseline_of(s, since) == s.last().0,
    decreases s.len(),
{
    assert(s[s.len() - 1].1 > since);
    assert(s.last().1 > since);
    if s.len() == 1 {
        assert(s.drop_last().len() == 0);
        assert(baseline_of(s.drop_last(), since) == 0);
    }
    if s.len() > 1 {
        assert forall|i: int| 0 <= i < s.drop_last().len() implies (#[trigger] s.drop_last()[i]).1
            > since by {
            assert(s.drop_last()[i] == s[i]);
        }
        lemma_no_baseline_delta_is_last_score(s.drop_last(), since);
    }
}

} // verus!
