//! Game-state estimation and collision forecasting.
//!
//! Given a stream of discrete, irregularly timed world snapshots (player
//! positions and headings, live bullets, a scoreboard), the library maintains
//! smoothed per-entity histories and answers predictive queries: recent
//! velocity, projected score, and the time at which a bullet will first come
//! within the local player's hit radius.
//!
//! All quantities are exact integers.  Positions and velocities are plain
//! coordinates; headings are fixed-point unit vectors; time is a
//! non-negative tick count supplied by the caller with every snapshot.

use vstd::prelude::*;

pub mod analyzer;
pub mod forecast;
pub mod geometry;
pub mod history;

verus! {

/// Every failure the library reports.  The three kinds are caller-contract
/// violations surfaced as explicit values rather than panics:
/// a query for an untracked player id (`NotFound`), a statistic requested on
/// a history with no samples (`Empty`), and a velocity computed over a
/// zero-duration interval (`DegenerateInterval`).
#[derive(Clone, Copy, Debug, PartialEq, Eq, Structural)]
pub enum AnalyzerError {
    NotFound,
    Empty,
    DegenerateInterval,
}

} // verus!
