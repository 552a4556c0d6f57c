//! Closest-point-of-approach collision forecasting.
//!
//! Under a constant-velocity assumption, the squared separation between a
//! bullet and the local player is a quadratic in time,
//! `qa * t^2 + 2 * qb * t + qc`, whose coefficients come from the relative
//! position and velocity.  A bullet is forecast to collide when that
//! quadratic dips to the squared hit radius somewhere in `[0, horizon]`;
//! the predicted time is the quadratic's minimizer `-qb / qa`, clamped to
//! the horizon.  Everything is decided exactly in integers: no square
//! roots and no division appear in the collision test itself.

use vstd::arithmetic::div_mod::{
    lemma_div_basics_4, lemma_div_denominator, lemma_div_multiples_vanish,
    lemma_fundamental_div_mod, lemma_mod_bound,
};
use vstd::prelude::*;

use crate::analyzer::Bullet;
use crate::geometry::{Position, Velocity, COORD_LIMIT, TIME_LIMIT};

verus! {

/// A forecast entry: a bullet and the tick offset at which it is predicted
/// to first reach minimum separation within the horizon.
#[derive(Clone, Copy, Debug, PartialEq, Eq, Structural)]
pub struct Prediction {
    pub bullet: Bullet,
    pub time: u64,
}

/// The leading coefficient of the separation quadratic: the squared
/// magnitude of the relative velocity.
pub open spec fn rel_qa(b: Bullet, pv: Velocity) -> int {
    let dvx = b.velocity.dx - pv.dx;
    let dvy = b.velocity.dy - pv.dy;
    dvx * dvx + dvy * dvy
}

/// Half the linear coefficient: the dot product of relative position and
/// relative velocity.  Negative exactly when the bullet is closing in.
pub open spec fn rel_qb(b: Bullet, pp: Position, pv: Velocity) -> int {
    let dpx = b.position.x - pp.x;
    let dpy = b.position.y - pp.y;
    let dvx = b.velocity.dx - pv.dx;
    let dvy = b.velocity.dy - pv.dy;
    dpx * dvx + dpy * dvy
}

/// The constant coefficient: the current squared separation.
pub open spec fn rel_qc(b: Bullet, pp: Position) -> int {
    let dpx = b.position.x - pp.x;
    let dpy = b.position.y - pp.y;
    dpx * dpx + dpy * dpy
}

/// Whether the bullet's squared separation from the player reaches the
/// squared hit radius somewhere in `[0, h]`, with player position `pp`
/// and velocity `pv` held constant.
pub open spec fn collides(b: Bullet, pp: Position, pv: Velocity, h: int, r: int) -> bool {
    let qa = rel_qa(b, pv);
    let qb = rel_qb(b, pp, pv);
    let qc = rel_qc(b, pp);
    let r2 = r * r;
    if qc <= r2 {
        true  // already overlapping
    } else if qa == 0 {
        false  // bullet and player move in lockstep and are not overlapping
    } else if qb >= 0 {
        false  // separation is non-decreasing from the first tick on
    } else if -qb >= qa * h {
        qa * h * h + 2 * qb * h + qc <= r2  // minimizer beyond the horizon: clamp to h
    } else {
        qa * qc - qb * qb <= qa * r2  // interior minimum, scaled through by qa
    }
}

/// The tick offset of the predicted collision: zero when already
/// overlapping or not closing, the horizon when the minimizer lies beyond
/// it, and the rounded-down minimizer `-qb / qa` otherwise.
pub open spec fn predicted_time(b: Bullet, pp: Position, pv: Velocity, h: int, r: int) -> int {
    let qa = rel_qa(b, pv);
    let qb = rel_qb(b, pp, pv);
    let qc = rel_qc(b, pp);
    if qc <= r * r {
        0
    } else if qa == 0 || qb >= 0 {
        0
    } else if -qb >= qa * h {
        h
    } else {
        (-qb) / qa
    }
}

/// The forecast entry for one colliding bullet.
pub open spec fn pred_of(b: Bullet, pp: Position, pv: Velocity, h: int, r: int) -> Prediction {
    Prediction { bullet: b, time: predicted_time(b, pp, pv, h, r) as u64 }
}

/// The forecast entries of every colliding bullet of `bs`, in bullet
/// order.
pub open spec fn forecast_seq(
    bs: Seq<Bullet>,
    pp: Position,
    pv: Velocity,
    h: int,
    r: int,
) -> Seq<Prediction>
    decreases bs.len(),
{
    if bs.len() == 0 {
        Seq::empty()
    } else {
        let rest = forecast_seq(bs.drop_last(), pp, pv, h, r);
        if collides(bs.last(), pp, pv, h, r) {
            rest.push(pred_of(bs.last(), pp, pv, h, r))
        } else {
            rest
        }
    }
}

/// Predicted times never decrease along the sequence.
pub open spec fn sorted_by_time(s: Seq<Prediction>) -> bool {
    forall|i: int, j: int| #![trigger s[i], s[j]] 0 <= i <= j < s.len() ==> s[i].time <= s[j].time
}

/// Decides [`collides`] for one bullet and returns the predicted tick
/// offset, evaluating the separation quadratic exactly in `i128`.
pub(crate) fn check_bullet(b: &Bullet, pp: Position, pv: Velocity, h: u64, r: i64) -> (res: Option<
    u64,
>)
    requires
        b.wf(),
        pp.wf(),
        -2 * COORD_LIMIT <= pv.dx <= 2 * COORD_LIMIT,
        -2 * COORD_LIMIT <= pv.dy <= 2 * COORD_LIMIT,
        h <= TIME_LIMIT,
        0 <= r <= COORD_LIMIT,
    ensures
        (match res {
            Some(t) => collides(*b, pp, pv, h as int, r as int) && t == predicted_time(
                *b,
                pp,
                pv,
                h as int,
                r as int,
            ),
            None => !collides(*b, pp, pv, h as int, r as int),
        }),
{
    let dpx: i128 = (b.position.x as i128) - (pp.x as i128);
    let dpy: i128 = (b.position.y as i128) - (pp.y as i128);
    let dvx: i128 = (b.velocity.dx as i128) - (pv.dx as i128);
    let dvy: i128 = (b.velocity.dy as i128) - (pv.dy as i128);
    proof {
        assert(dvx * dvx + dvy * dvy <= 18_000_000_000_000_000_000 && dvx * dvx >= 0 && dvy * dvy
            >= 0) by (nonlinear_arith)
            requires
                -3_000_000_000 <= dvx <= 3_000_000_000,
                -3_000_000_000 <= dvy <= 3_000_000_000,
        ;
        assert(dpx * dpx + dpy * dpy <= 8_000_000_000_000_000_000 && dpx * dpx >= 0 && dpy * dpy
            >= 0) by (nonlinear_arith)
            requires
                -2_000_000_000 <= dpx <= 2_000_000_000,
                -2_000_000_000 <= dpy <= 2_000_000_000,
        ;
        assert(-6_000_000_000_000_000_000 <= dpx * dvx <= 6_000_000_000_000_000_000)
            by (nonlinear_arith)
            requires
                -2_000_000_000 <= dpx <= 2_000_000_000,
                -3_000_000_000 <= dvx <= 3_000_000_000,
        ;
        assert(-6_000_000_000_000_000_000 <= dpy * dvy <= 6_000_000_000_000_000_000)
            by (nonlinear_arith)
            requires
                -2_000_000_000 <= dpy <= 2_000_000_000,
                -3_000_000_000 <= dvy <= 3_000_000_000,
        ;
        assert(0 <= (r as i128) * (r as i128) <= 1_000_000_000_000_000_000) by (nonlinear_arith)
            requires 0 <= r <= 1_000_000_000;
    }
    let qa: i128 = dvx * dvx + dvy * dvy;
    let qb: i128 = dpx * dvx + dpy * dvy;
    let qc: i128 = dpx * dpx + dpy * dpy;
    let r2: i128 = (r as i128) * (r as i128);
    let hh: i128 = h as i128;

    if qc <= r2 {
        return Some(0);
    }
    if qa == 0 {
        return None;
    }
    if qb >= 0 {
        return None;
    }
    proof {
        assert(0 <= qa * hh <= 18_000_000_000_000_000_000_000_000_000) by (nonlinear_arith)
            requires
                0 <= qa <= 18_000_000_000_000_000_000,
                0 <= hh <= 1_000_000_000,
        ;
    }
    if -qb >= qa * hh {
        proof {
            assert(0 <= qa * hh * hh <= 18_000_000_000_000_000_000_000_000_000_000_000_000)
                by (nonlinear_arith)
                requires
                    0 <= qa * hh <= 18_000_000_000_000_000_000_000_000_000,
                    0 <= hh <= 1_000_000_000,
                    qa * hh * hh == (qa * hh) * hh,
            ;
            assert(-12_000_000_000_000_000_000_000_000_000 <= qb * hh <= 0) by (nonlinear_arith)
                requires
                    -12_000_000_000_000_000_000 <= qb <= 0,
                    0 <= hh <= 1_000_000_000,
            ;
        }
        let qval: i128 = qa * hh * hh + 2 * (qb * hh) + qc;
        proof {
            assert(qa * hh * hh + 2 * qb * hh + qc == qa * hh * hh + 2 * (qb * hh) + qc)
                by (nonlinear_arith);
        }
        if qval <= r2 {
            return Some(h);
        } else {
            return None;
        }
    }
    proof {
        assert(0 <= qa * qc <= 144_000_000_000_000_000_000_000_000_000_000_000_000)
            by (nonlinear_arith)
            requires
                0 <= qa <= 18_000_000_000_000_000_000,
                0 <= qc <= 8_000_000_000_000_000_000,
        ;
        assert(0 <= qb * qb <= 144_000_000_000_000_000_000_000_000_000_000_000_000)
            by (nonlinear_arith)
            requires -12_000_000_000_000_000_000 <= qb <= 0;
        assert(0 <= qa * r2 <= 18_000_000_000_000_000_000_000_000_000_000_000_000)
            by (nonlinear_arith)
            requires
                0 <= qa <= 18_000_000_000_000_000_000,
                0 <= r2 <= 1_000_000_000_000_000_000,
        ;
    }
    if qa * qc - qb * qb <= qa * r2 {
        let t: i128 = (-qb) / qa;
        proof {
            lemma_div_basics_4(-qb as int, qa as int);
            lemma_fundamental_div_mod(-qb as int, qa as int);
            lemma_mod_bound(-qb as int, qa as int);
            assert(t < hh) by (nonlinear_arith)
                requires
                    qa > 0,
                    hh >= 0,
                    t >= 0,
                    -qb < qa * hh,
                    -qb == qa * t + ((-qb as int) % (qa as int)),
                    0 <= (-qb as int) % (qa as int) < qa,
            ;
        }
        Some(t as u64)
    } else {
        None
    }
}

/// Reorders the forecast entries ascending by predicted time, by repeated
/// selection of a minimal remaining entry.
pub(crate) fn sort_by_time(v: Vec<Prediction>) -> (r: Vec<Prediction>)
    ensures
        r@.to_multiset() == v@.to_multiset(),
        sorted_by_time(r@),
{
    let mut rest = v;
    let mut out: Vec<Prediction> = Vec::new();
    proof {
        broadcast use vstd::seq_lib::group_to_multiset_ensures;

        assert(out@.to_multiset().add(rest@.to_multiset()) =~= v@.to_multiset());
    }
    while rest.len() > 0
        invariant
            out@.to_multiset().add(rest@.to_multiset()) == v@.to_multiset(),
            sorted_by_time(out@),
            forall|i: int, j: int|
                #![trigger out@[i], rest@[j]]
                0 <= i < out@.len() && 0 <= j < rest@.len() ==> out@[i].time <= rest@[j].time,
        decreases rest@.len(),
    {
        let mut m: usize = 0;
        let mut k: usize = 1;
        while k < rest.len()
            invariant
                0 <= m < k <= rest@.len(),
                rest@.len() > 0,
                forall|j: int| 0 <= j < k ==> rest@[m as int].time <= (#[trigger] rest@[j]).time,
            decreases rest@.len() - k,
        {
            if rest[k].time < rest[m].time {
                m = k;
            }
            k = k + 1;
        }
        let ghost rest0 = rest@;
        let ghost out0 = out@;
        let p = rest.remove(m);
        out.push(p);
        proof {
            broadcast use vstd::seq_lib::group_to_multiset_ensures;

            assert(rest@ == rest0.remove(m as int));
            assert(out@ == out0.push(p));
            assert(rest0.to_multiset().contains(p));
            assert(out@.to_multiset().add(rest@.to_multiset()) =~= out0.to_multiset().add(
                rest0.to_multiset(),
            ));
            assert forall|i: int, j: int|
                #![trigger out@[i], rest@[j]]
                0 <= i < out@.len() && 0 <= j < rest@.len() implies out@[i].time
                <= rest@[j].time by {
                assert(rest@[j] == if j < m { rest0[j] } else { rest0[j + 1] });
                assert(out@[i] == if i < out0.len() { out0[i] } else { p });
            }
        }
    }
    out
}

/// A bullet at distance `d` heading straight at a stationary player with
/// speed `s` and hit radius zero is forecast to collide exactly when the
/// horizon `h` reaches `d / s`, and the predicted tick is `d / s` itself
/// (rounded down).
pub proof fn lemma_head_on_collision(d: i64, s: i64, h: u64)
    requires
        0 < d <= COORD_LIMIT,
        0 < s <= COORD_LIMIT,
        h <= TIME_LIMIT,
    ensures
        ({
            let b = Bullet {
                position: Position { x: d, y: 0i64 },
                velocity: Velocity { dx: (-s) as i64, dy: 0i64 },
                player_id: 0u32,
            };
            let pp = Position { x: 0i64, y: 0i64 };
            let pv = Velocity { dx: 0i64, dy: 0i64 };
            &&& (collides(b, pp, pv, h as int, 0) <==> s * h >= d)
            &&& (s * h >= d ==> predicted_time(b, pp, pv, h as int, 0) == d as int / s as int)
        }),
{
    let b = Bullet {
        position: Position { x: d, y: 0i64 },
        velocity: Velocity { dx: (-s) as i64, dy: 0i64 },
        player_id: 0u32,
    };
    let pp = Position { x: 0i64, y: 0i64 };
    let pv = Velocity { dx: 0i64, dy: 0i64 };
    let qa = rel_qa(b, pv);
    let qb = rel_qb(b, pp, pv);
    let qc = rel_qc(b, pp);
    let si = s as int;
    let di = d as int;
    assert(qa == (-si) * (-si) + 0 * 0);
    assert(qb == di * (-si) + 0 * 0);
    assert(qc == di * di + 0 * 0);
    assert((-si) * (-si) == si * si && di * (-si) == -(di * si) && 0 * 0 == 0)
        by (nonlinear_arith);
    assert(qa == s * s && qb == -(d * s) && qc == d * d);
    assert(qa > 0 && qb < 0 && qc > 0) by (nonlinear_arith)
        requires
            qa == s * s && qb == -(d * s) && qc == d * d,
            d > 0,
            s > 0,
    ;
    if -qb >= qa * h {
        // minimizer at or beyond the horizon: collision exactly at d == s * h
        assert(d >= s * h) by (nonlinear_arith)
            requires
                d * s >= (s * s) * h,
                s > 0,
                h >= 0,
                d > 0,
        ;
        assert(qa * h * h + 2 * qb * h + qc == (d - s * h) * (d - s * h)) by (nonlinear_arith)
            requires
                qa == s * s && qb == -(d * s) && qc == d * d,
        ;
        assert((d - s * h) * (d - s * h) <= 0 <==> d == s * h) by (nonlinear_arith);
        if d == s * h {
            assert(collides(b, pp, pv, h as int, 0));
            assert(s * h >= d);
            lemma_div_multiples_vanish(h as int, s as int);
            assert(d as int / s as int == h);
        } else {
            assert(!collides(b, pp, pv, h as int, 0));
            assert(!(s * h >= d)) by (nonlinear_arith)
                requires
                    d >= s * h,
                    d != s * h,
            ;
        }
    } else {
        // interior minimizer: the head-on bullet always reaches distance zero
        assert(qa * qc - qb * qb == 0) by (nonlinear_arith)
            requires
                qa == s * s && qb == -(d * s) && qc == d * d,
        ;
        assert(qa * 0 == 0) by (nonlinear_arith);
        assert(collides(b, pp, pv, h as int, 0));
        assert(d < s * h) by (nonlinear_arith)
            requires
                d * s < (s * s) * h,
                s > 0,
        ;
        assert(predicted_time(b, pp, pv, h as int, 0) == (d * s) / (s * s));
        assert((d * s) / (s * s) == d as int / s as int) by {
            assert(d * s >= 0) by (nonlinear_arith)
                requires
                    d > 0,
                    s > 0,
            ;
            lemma_div_denominator(d * s, s as int, s as int);
            assert((d * s) / (s as int) == d) by {
                lemma_div_multiples_vanish(d as int, s as int);
                assert(d * s == s * d) by (nonlinear_arith);
            }
        }
    }
}

/// A bullet that is not closing on the player (the relative velocity does
/// not shrink the separation) and is not already within the hit radius is
/// never forecast to collide.
pub proof fn lemma_receding_bullet_excluded(b: Bullet, pp: Position, pv: Velocity, h: int, r: int)
    requires
        rel_qb(b, pp, pv) >= 0,
        rel_qc(b, pp) > r * r,
    ensures
        !collides(b, pp, pv, h, r),
{
}

} // verus!
