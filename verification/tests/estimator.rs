use std::collections::HashMap;

use game_estimator::analyzer::{
    Analyzer, Bullet, BulletState, Config, GameState, Player, PlayerState,
};
use game_estimator::geometry::{Heading, Position, Velocity, HEADING_SCALE};
use game_estimator::AnalyzerError;

fn heading_right() -> Heading {
    Heading::new(HEADING_SCALE, 0)
}

fn heading_left() -> Heading {
    Heading::new(-HEADING_SCALE, 0)
}

fn snapshot(players: Vec<PlayerState>, bullets: Vec<BulletState>, scores: &[(u32, u32)]) -> GameState {
    let mut scoreboard = HashMap::new();
    for (id, score) in scores {
        scoreboard.insert(*id, *score);
    }
    GameState { players, bullets, scoreboard }
}

fn player_state(id: u32, x: i64, y: i64) -> PlayerState {
    PlayerState { id, x, y, angle: heading_right() }
}

// A first snapshot gives the player exactly one trajectory sample and a
// zero velocity estimate.
#[test]
fn first_snapshot_single_sample() {
    let mut a = Analyzer::new();
    a.push_state(&snapshot(vec![player_state(1, 5, 5)], vec![], &[(1, 0)]), 1);
    let p = a.player(1).unwrap();
    assert_eq!(p.trajectory.positions.len(), 1);
    assert_eq!(p.trajectory.positions[0], (Position::new(5, 5), 1));
    assert_eq!(p.trajectory.last_velocity(), Ok(Velocity::new(0, 0)));
}

// Two samples at (0,0) then (10,0) one tick apart give velocity (10,0).
#[test]
fn velocity_from_two_samples() {
    let mut a = Analyzer::new();
    a.push_state(&snapshot(vec![player_state(1, 0, 0)], vec![], &[(1, 0)]), 0);
    a.push_state(&snapshot(vec![player_state(1, 10, 0)], vec![], &[(1, 0)]), 1);
    let p = a.player(1).unwrap();
    assert_eq!(p.trajectory.positions.len(), 2);
    assert_eq!(p.trajectory.last_velocity(), Ok(Velocity::new(10, 0)));
}

// With no sample at or before the query tick, the baseline is zero and
// the delta equals the latest score itself.
#[test]
fn score_since_without_baseline() {
    let mut h = game_estimator::history::ScoreHistory::new();
    h.push(7, 10);
    assert_eq!(h.last_score(), Ok(7));
    assert_eq!(h.score_since(5), Ok(7));
}

#[test]
fn score_since_with_baseline() {
    let mut h = game_estimator::history::ScoreHistory::new();
    h.push(3, 0);
    h.push(10, 10);
    assert_eq!(h.score_since(0), Ok(7));
    assert_eq!(h.score_since(10), Ok(0));
}

// A score that dropped over the window gives a negative delta.
#[test]
fn score_since_negative_delta() {
    let mut h = game_estimator::history::ScoreHistory::new();
    h.push(10, 0);
    h.push(4, 10);
    assert_eq!(h.score_since(0), Ok(-6));
}

// A stationary player has a zero average absolute velocity, for any
// sample count.
#[test]
fn stationary_ave_abs_velocity() {
    let mut a = Analyzer::new();
    for t in 0..6 {
        a.push_state(&snapshot(vec![player_state(1, 42, -17)], vec![], &[(1, 0)]), t);
    }
    let p = a.player(1).unwrap();
    assert_eq!(p.trajectory.positions.len(), 6);
    assert_eq!(p.trajectory.ave_abs_velocity(), Ok(Velocity::new(0, 0)));
}

#[test]
fn ave_abs_velocity_mixed_directions() {
    let mut t = game_estimator::history::Trajectory::new();
    t.push(Position::new(0, 0), 0);
    t.push(Position::new(10, 0), 1);
    t.push(Position::new(0, 0), 2);
    // steps: (+10,0) and (-10,0); absolute average is (10,0)
    assert_eq!(t.ave_abs_velocity(), Ok(Velocity::new(10, 0)));
}

// A bullet at distance 10 heading straight at a stationary player with
// speed 5 and hit radius 0 collides at tick 2 when the horizon allows it.
#[test]
fn head_on_collision_within_horizon() {
    let mut a = Analyzer::with_config(Config { lookback: 10, bullet_speed: 5, hit_radius: 0 });
    a.set_own_player_id(1);
    let bullet = BulletState { x: 10, y: 0, angle: heading_left(), player_id: 2 };
    a.push_state(&snapshot(vec![player_state(1, 0, 0)], vec![], &[(1, 0)]), 0);
    a.push_state(&snapshot(vec![player_state(1, 0, 0)], vec![bullet], &[(1, 0)]), 1);
    let hits = a.bullets_to_collide(3).unwrap();
    assert_eq!(hits.len(), 1);
    assert_eq!(hits[0].time, 2);
    assert_eq!(hits[0].bullet.position, Position::new(10, 0));
    assert_eq!(hits[0].bullet.velocity, Velocity::new(-5, 0));
}

// The same bullet is excluded when the horizon ends before d / s.
#[test]
fn head_on_collision_beyond_horizon() {
    let mut a = Analyzer::with_config(Config { lookback: 10, bullet_speed: 5, hit_radius: 0 });
    a.set_own_player_id(1);
    let bullet = BulletState { x: 10, y: 0, angle: heading_left(), player_id: 2 };
    a.push_state(&snapshot(vec![player_state(1, 0, 0)], vec![], &[(1, 0)]), 0);
    a.push_state(&snapshot(vec![player_state(1, 0, 0)], vec![bullet], &[(1, 0)]), 1);
    assert_eq!(a.bullets_to_collide(1).unwrap().len(), 0);
}

// A bullet moving parallel to the player and never closing on it is
// excluded.
#[test]
fn parallel_bullet_excluded() {
    let mut a = Analyzer::with_config(Config { lookback: 10, bullet_speed: 5, hit_radius: 0 });
    a.set_own_player_id(1);
    let bullet = BulletState { x: 0, y: 5, angle: heading_right(), player_id: 2 };
    a.push_state(&snapshot(vec![player_state(1, 0, 0)], vec![], &[(1, 0)]), 0);
    a.push_state(&snapshot(vec![player_state(1, 0, 0)], vec![bullet], &[(1, 0)]), 1);
    assert_eq!(a.bullets_to_collide(100).unwrap().len(), 0);
}

// A bullet already inside the hit radius is reported at tick zero.
#[test]
fn overlapping_bullet_reported_at_zero() {
    let mut a = Analyzer::with_config(Config { lookback: 10, bullet_speed: 5, hit_radius: 0 });
    a.set_own_player_id(1);
    let bullet = BulletState { x: 0, y: 0, angle: heading_right(), player_id: 2 };
    a.push_state(&snapshot(vec![player_state(1, 0, 0)], vec![], &[(1, 0)]), 0);
    a.push_state(&snapshot(vec![player_state(1, 0, 0)], vec![bullet], &[(1, 0)]), 1);
    let hits = a.bullets_to_collide(5).unwrap();
    assert_eq!(hits.len(), 1);
    assert_eq!(hits[0].time, 0);
}

// Forecast entries come back sorted ascending by predicted time.
#[test]
fn forecast_sorted_by_time() {
    let mut a = Analyzer::with_config(Config { lookback: 10, bullet_speed: 5, hit_radius: 0 });
    a.set_own_player_id(1);
    let far = BulletState { x: 20, y: 0, angle: heading_left(), player_id: 2 };
    let near = BulletState { x: 10, y: 0, angle: heading_left(), player_id: 2 };
    a.push_state(&snapshot(vec![player_state(1, 0, 0)], vec![], &[(1, 0)]), 0);
    a.push_state(&snapshot(vec![player_state(1, 0, 0)], vec![far, near], &[(1, 0)]), 1);
    let hits = a.bullets_to_collide(10).unwrap();
    assert_eq!(hits.len(), 2);
    assert_eq!(hits[0].time, 2);
    assert_eq!(hits[1].time, 4);
}

// The bullet list is replaced wholesale by each snapshot.
#[test]
fn bullets_rebuilt_each_tick() {
    let mut a = Analyzer::with_config(Config { lookback: 10, bullet_speed: 5, hit_radius: 0 });
    a.set_own_player_id(1);
    let bullet = BulletState { x: 10, y: 0, angle: heading_left(), player_id: 2 };
    a.push_state(&snapshot(vec![player_state(1, 0, 0)], vec![bullet], &[(1, 0)]), 0);
    a.push_state(&snapshot(vec![player_state(1, 0, 0)], vec![], &[(1, 0)]), 1);
    assert_eq!(a.bullets_to_collide(10).unwrap().len(), 0);
}

// A bearing query is a pure read: asking twice gives identical results.
#[test]
fn angle_to_idempotent() {
    let mut a = Analyzer::new();
    a.set_own_player_id(1);
    a.push_state(
        &snapshot(vec![player_state(1, 5, 5), player_state(2, 2, 9)], vec![], &[(1, 0), (2, 0)]),
        0,
    );
    let first = a.angle_to(2);
    let second = a.angle_to(2);
    assert_eq!(first, second);
    assert_eq!(first, Ok(Heading::new(-3, 4)));
}

#[test]
fn angle_to_unknown_target() {
    let mut a = Analyzer::new();
    a.set_own_player_id(1);
    a.push_state(&snapshot(vec![player_state(1, 0, 0)], vec![], &[(1, 0)]), 0);
    assert_eq!(a.angle_to(9), Err(AnalyzerError::NotFound));
}

#[test]
fn player_not_found() {
    let a = Analyzer::new();
    assert!(matches!(a.player(3), Err(AnalyzerError::NotFound)));
}

#[test]
fn own_player_selection() {
    let mut a = Analyzer::new();
    a.push_state(
        &snapshot(vec![player_state(1, 0, 0), player_state(2, 3, 4)], vec![], &[(1, 0), (2, 0)]),
        0,
    );
    a.set_own_player_id(2);
    assert_eq!(a.own_player().unwrap().id, 2);
    assert_eq!(a.own_player().unwrap().position, Position::new(3, 4));
}

#[test]
fn bullets_to_collide_unknown_own_player() {
    let a = Analyzer::new();
    assert!(matches!(a.bullets_to_collide(10), Err(AnalyzerError::NotFound)));
}

// A player absent from a later snapshot stays tracked unchanged.
#[test]
fn absent_player_remains_tracked() {
    let mut a = Analyzer::new();
    a.push_state(
        &snapshot(vec![player_state(1, 0, 0), player_state(2, 3, 4)], vec![], &[(1, 0), (2, 5)]),
        0,
    );
    a.push_state(&snapshot(vec![player_state(1, 1, 1)], vec![], &[(1, 0)]), 1);
    let p2 = a.player(2).unwrap();
    assert_eq!(p2.position, Position::new(3, 4));
    assert_eq!(p2.trajectory.positions.len(), 1);
    assert_eq!(p2.score_history.last_score(), Ok(5));
    assert_eq!(a.player(1).unwrap().trajectory.positions.len(), 2);
}

#[test]
fn last_score_empty() {
    let h = game_estimator::history::ScoreHistory::new();
    assert_eq!(h.last_score(), Err(AnalyzerError::Empty));
    assert_eq!(h.score_since(0), Err(AnalyzerError::Empty));
    assert_eq!(h.project(1, 10, 10), Err(AnalyzerError::Empty));
}

#[test]
fn last_position_empty() {
    let t = game_estimator::history::Trajectory::new();
    assert_eq!(t.last_position(), Err(AnalyzerError::Empty));
}

#[test]
fn degenerate_interval_velocity() {
    let a = Position::new(0, 0);
    let b = Position::new(10, 10);
    assert_eq!(a.velocity_to(&b, 0), Err(AnalyzerError::DegenerateInterval));
    assert_eq!(a.velocity_to(&b, 2), Ok(Velocity::new(5, 5)));
}

#[test]
fn degenerate_interval_last_velocity() {
    let mut t = game_estimator::history::Trajectory::new();
    t.push(Position::new(1, 1), 5);
    t.push(Position::new(2, 2), 5);
    assert_eq!(t.last_velocity(), Err(AnalyzerError::DegenerateInterval));
    assert_eq!(t.ave_abs_velocity(), Err(AnalyzerError::DegenerateInterval));
}

// The linear score forecast: last + delta * after / lookback.
#[test]
fn score_projection_formula() {
    let mut h = game_estimator::history::ScoreHistory::new();
    h.push(0, 0);
    h.push(10, 10);
    // lookback 10 ending at tick 10: baseline 0, delta 10
    assert_eq!(h.project(5, 10, 10), Ok(15));
    assert_eq!(h.project(20, 10, 10), Ok(30));
    assert_eq!(h.project(0, 10, 10), Ok(10));
}

// A negative trend projects downward but clamps at zero.
#[test]
fn score_projection_clamps_at_zero() {
    let mut h = game_estimator::history::ScoreHistory::new();
    h.push(30, 0);
    h.push(2, 10);
    assert_eq!(h.project(20, 10, 10), Ok(0));
}

// Histories keep at most their capacity, dropping the oldest samples.
#[test]
fn history_retention_cap() {
    let mut t = game_estimator::history::Trajectory::new();
    for i in 0..1500u64 {
        t.push(Position::new(i as i64, 0), i);
    }
    assert_eq!(t.positions.len(), 1024);
    assert_eq!(t.positions[0], (Position::new(476, 0), 476));
    assert_eq!(t.last_position(), Ok(Position::new(1499, 0)));
}

#[test]
fn distance_exact_and_floor() {
    let o = Position::new(0, 0);
    assert_eq!(o.distance(&Position::new(3, 4)), 5);
    assert_eq!(o.distance(&Position::new(1, 2)), 2); // floor of sqrt(5)
    assert_eq!(o.distance(&Position::new(0, 0)), 0);
    assert_eq!(Position::new(-3, -4).distance(&o), 5);
}

#[test]
fn angle_to_carries_quadrant() {
    let o = Position::new(0, 0);
    assert_eq!(o.angle_to(&Position::new(5, 5)), Heading::new(5, 5));
    assert_eq!(o.angle_to(&Position::new(-5, 5)), Heading::new(-5, 5));
    assert_eq!(o.angle_to(&Position::new(-5, -5)), Heading::new(-5, -5));
    assert_eq!(o.angle_to(&Position::new(5, -5)), Heading::new(5, -5));
}

#[test]
fn velocity_truncates_toward_zero() {
    let a = Position::new(0, 0);
    assert_eq!(a.velocity_to(&Position::new(-7, 7), 2), Ok(Velocity::new(-3, 3)));
}

#[test]
fn project_position() {
    let p = Position::new(1, 2);
    assert_eq!(p.project(&Velocity::new(3, 4), 5), Position::new(16, 22));
}

#[test]
fn velocity_with_angle_scales_heading() {
    let v = Velocity::with_angle(&Heading::new(-1000, 0), 5);
    assert_eq!(v, Velocity::new(-5, 0));
    let diag = Velocity::with_angle(&Heading::new(707, -707), 1000);
    assert_eq!(diag, Velocity::new(707, -707));
}

#[test]
fn velocity_component_ops() {
    assert_eq!(Velocity::zeros(), Velocity::new(0, 0));
    assert_eq!(Velocity::new(-3, 4).abs(), Velocity::new(3, 4));
    assert_eq!(Velocity::new(1, 2).plus(&Velocity::new(3, 4)), Velocity::new(4, 6));
    assert_eq!(Velocity::new(10, -10).div(4), Velocity::new(2, -2));
}

#[test]
fn blank_player_defaults() {
    let p = Player::new();
    assert_eq!(p.id, 0);
    assert_eq!(p.position, Position::new(0, 0));
    assert_eq!(p.trajectory.positions.len(), 0);
}

#[test]
fn player_with_state_seeds_histories() {
    let mut scoreboard = HashMap::new();
    scoreboard.insert(7u32, 3u32);
    let st = player_state(7, 8, 9);
    let p = Player::with_state(&st, &scoreboard, 4);
    assert_eq!(p.id, 7);
    assert_eq!(p.position, Position::new(8, 9));
    assert_eq!(p.trajectory.positions.len(), 1);
    assert_eq!(p.score_history.last_score(), Ok(3));
}

#[test]
fn bullet_new_derives_velocity() {
    let st = BulletState { x: 1, y: 2, angle: heading_left(), player_id: 9 };
    let b = Bullet::new(&st, 7);
    assert_eq!(b.position, Position::new(1, 2));
    assert_eq!(b.velocity, Velocity::new(-7, 0));
    assert_eq!(b.player_id, 9);
}

#[test]
fn empty_snapshot_accepted() {
    let mut a = Analyzer::new();
    a.push_state(&snapshot(vec![], vec![], &[]), 3);
    assert!(matches!(a.player(1), Err(AnalyzerError::NotFound)));
}

#[test]
fn distance_at_coordinate_limit() {
    let o = Position::new(0, 0);
    let far = Position::new(1_000_000_000, 1_000_000_000);
    // floor of sqrt(2) * 10^9
    assert_eq!(o.distance(&far), 1_414_213_562);
}

// Equal-timestamp snapshots are accepted but make the velocity estimate
// degenerate, which the forecast surfaces explicitly.
#[test]
fn forecast_degenerate_own_velocity() {
    let mut a = Analyzer::new();
    a.set_own_player_id(1);
    a.push_state(&snapshot(vec![player_state(1, 0, 0)], vec![], &[(1, 0)]), 5);
    a.push_state(&snapshot(vec![player_state(1, 3, 0)], vec![], &[(1, 0)]), 5);
    assert_eq!(a.bullets_to_collide(10), Err(AnalyzerError::DegenerateInterval));
}
