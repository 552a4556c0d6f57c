//! Snapshot ingestion and query state: the per-player map, the current
//! bullet list, and the read-only queries the decision layer issues
//! between snapshots.
//!
//! The analyzer is mutated only by [`Analyzer::push_state`], called once
//! per inbound snapshot by a single owner; every other operation is a pure
//! read.  Players absent from a snapshot stay tracked unchanged; the bullet
//! list is rebuilt wholesale from each snapshot, since bullets carry no
//! cross-tick identity.

use std::collections::HashMap;

use vstd::prelude::*;

use crate::forecast::{check_bullet, forecast_seq, pred_of, sort_by_time, sorted_by_time, Prediction};
use crate::geometry::{tdiv, Heading, Position, Velocity, COORD_LIMIT, HEADING_SCALE, TIME_LIMIT};
use crate::history::{
    last_velocity_spec, lemma_last_velocity_bounded, pushed, ScoreHistory, Trajectory, MAX_SAMPLES,
};
use crate::AnalyzerError;

verus! {

/// The tunable parameters of the estimator, constructed once at startup
/// and passed to the components that need them.
#[derive(Clone, Copy, Debug, PartialEq, Eq, Structural)]
pub struct Config {
    /// Width in ticks of the score-rate lookback window.
    pub lookback: u64,
    /// Speed given to every bullet reported by a snapshot.
    pub bullet_speed: i64,
    /// The local player's hit radius for collision forecasts.
    pub hit_radius: i64,
}

/// The default configuration.
pub open spec fn default_config() -> Config {
    Config { lookback: 10u64, bullet_speed: 1i64, hit_radius: 0i64 }
}

impl Config {
    /// The ranges the estimator's arithmetic accepts.
    pub open spec fn wf(self) -> bool {
        &&& 0 < self.lookback <= TIME_LIMIT
        &&& 0 <= self.bullet_speed <= COORD_LIMIT
        &&& 0 <= self.hit_radius <= COORD_LIMIT
    }

    pub fn new() -> (r: Self)
        ensures
            r == default_config(),
            r.wf(),
    {
        Config { lookback: 10, bullet_speed: 1, hit_radius: 0 }
    }
}

/// One player's state as a snapshot reports it.
#[derive(Clone, Copy, Debug, PartialEq, Eq, Structural)]
pub struct PlayerState {
    pub id: u32,
    pub x: i64,
    pub y: i64,
    pub angle: Heading,
}

impl PlayerState {
    pub open spec fn wf(self) -> bool {
        &&& crate::geometry::in_coord_range(self.x as int)
        &&& crate::geometry::in_coord_range(self.y as int)
        &&& self.angle.unit_scaled()
    }

    /// The position the state reports.
    pub open spec fn pos(self) -> Position {
        Position { x: self.x, y: self.y }
    }
}

/// One bullet's state as a snapshot reports it.
#[derive(Clone, Copy, Debug, PartialEq, Eq, Structural)]
pub struct BulletState {
    pub x: i64,
    pub y: i64,
    pub angle: Heading,
    pub player_id: u32,
}

impl BulletState {
    pub open spec fn wf(self) -> bool {
        &&& crate::geometry::in_coord_range(self.x as int)
        &&& crate::geometry::in_coord_range(self.y as int)
        &&& self.angle.unit_scaled()
    }
}

/// One discrete, timestamped observation of the whole tracked world:
/// player states, bullet states, and the scoreboard.
pub struct GameState {
    pub players: Vec<PlayerState>,
    pub bullets: Vec<BulletState>,
    pub scoreboard: HashMap<u32, u32>,
}

impl GameState {
    /// A snapshot the analyzer accepts: every state within range, player
    /// ids unique, and a scoreboard entry for every reported player.
    pub open spec fn wf(self) -> bool {
        &&& forall|i: int| 0 <= i < self.players@.len() ==> (#[trigger] self.players@[i]).wf()
        &&& forall|i: int, j: int|
            #![trigger self.players@[i], self.players@[j]]
            0 <= i < j < self.players@.len() ==> self.players@[i].id != self.players@[j].id
        &&& forall|i: int|
            0 <= i < self.players@.len() ==> self.scoreboard@.contains_key(
                (#[trigger] self.players@[i]).id,
            )
        &&& forall|i: int| 0 <= i < self.bullets@.len() ==> (#[trigger] self.bullets@[i]).wf()
    }
}

/// Whether some player state in `ps` carries the id `id`.
pub open spec fn snapshot_has(ps: Seq<PlayerState>, id: u32) -> bool {
    exists|i: int| 0 <= i < ps.len() && (#[trigger] ps[i]).id == id
}

/// A live bullet: a position, the velocity derived from its heading and
/// the configured bullet speed, and the id of the player that fired it.
#[derive(Clone, Copy, Debug, PartialEq, Eq, Structural)]
pub struct Bullet {
    pub position: Position,
    pub velocity: Velocity,
    pub player_id: u32,
}

/// The bullet a snapshot state describes, moving at `speed` along its
/// heading.
pub open spec fn bullet_from(bs: BulletState, speed: i64) -> Bullet {
    Bullet {
        position: Position { x: bs.x, y: bs.y },
        velocity: Velocity {
            dx: tdiv(speed * bs.angle.x, HEADING_SCALE as int) as i64,
            dy: tdiv(speed * bs.angle.y, HEADING_SCALE as int) as i64,
        },
        player_id: bs.player_id,
    }
}

impl Bullet {
    pub open spec fn wf(self) -> bool {
        self.position.wf() && self.velocity.wf()
    }

    pub fn new(state: &BulletState, speed: i64) -> (r: Bullet)
        requires
            state.wf(),
            0 <= speed <= COORD_LIMIT,
        ensures
            r == bullet_from(*state, speed),
            r.wf(),
    {
        Bullet {
            position: Position::new(state.x, state.y),
            velocity: Velocity::with_angle(&state.angle, speed),
            player_id: state.player_id,
        }
    }
}

/// One tracked player: the latest reported pose plus the accumulated
/// position and score histories.
pub struct Player {
    pub id: u32,
    pub angle: Heading,
    pub position: Position,
    pub trajectory: Trajectory,
    pub score_history: ScoreHistory,
    pub last_update: u64,
}

impl Player {
    /// The tick of the last snapshot that updated this player.
    pub open spec fn updated_at(self) -> u64 {
        self.last_update
    }

    /// A tracked player always carries at least one sample in each
    /// history, taken at its last update, and its position is the latest
    /// trajectory sample.
    pub open spec fn wf(self) -> bool {
        &&& self.position.wf()
        &&& self.angle.unit_scaled()
        &&& self.trajectory.wf()
        &&& self.score_history.wf()
        &&& self.trajectory@.len() >= 1
        &&& self.score_history@.len() >= 1
        &&& self.trajectory@.last() == (self.position, self.updated_at())
        &&& self.score_history@.last().1 == self.updated_at()
    }

    /// A blank player, before any snapshot has been seen: zero pose and
    /// empty histories.
    pub fn new() -> (r: Self)
        ensures
            r.id == 0,
            r.angle == (Heading { x: HEADING_SCALE, y: 0i64 }),
            r.position == (Position { x: 0i64, y: 0i64 }),
            r.trajectory@ == Seq::<(Position, u64)>::empty(),
            r.score_history@ == Seq::<(u32, u64)>::empty(),
            r.updated_at() == 0,
    {
        Player {
            id: 0,
            angle: Heading { x: HEADING_SCALE, y: 0 },
            position: Position::new(0, 0),
            trajectory: Trajectory::new(),
            score_history: ScoreHistory::new(),
            last_update: 0,
        }
    }

    /// The player a first snapshot creates: one trajectory sample at the
    /// reported position and one score sample from the scoreboard.
    pub fn with_state(state: &PlayerState, scoreboard: &HashMap<u32, u32>, time: u64) -> (r: Self)
        requires
            state.wf(),
            scoreboard@.contains_key(state.id),
            time <= TIME_LIMIT,
        ensures
            r.id == state.id,
            r.angle == state.angle,
            r.position == state.pos(),
            r.trajectory@.len() == 1,
            r.trajectory@[0] == (state.pos(), time),
            r.score_history@.len() == 1,
            r.score_history@[0] == (scoreboard@[state.id], time),
            r.updated_at() == time,
            r.wf(),
    {
        let position = Position::new(state.x, state.y);
        let mut trajectory = Trajectory::new();
        trajectory.push(position, time);
        let score: u32 = match scoreboard.get(&state.id) {
            Some(s) => *s,
            None => {
                proof {
                    assert(false);
                }
                0
            },
        };
        let mut score_history = ScoreHistory::new();
        score_history.push(score, time);
        Player {
            id: state.id,
            angle: state.angle,
            position,
            trajectory,
            score_history,
            last_update: time,
        }
    }

    /// Folds a later snapshot into the player: pose replaced, one sample
    /// appended to each history.
    pub fn push_state(&mut self, state: &PlayerState, scoreboard: &HashMap<u32, u32>, time: u64)
        requires
            old(self).wf(),
            old(self).id == state.id,
            state.wf(),
            scoreboard@.contains_key(state.id),
            old(self).updated_at() <= time,
            time <= TIME_LIMIT,
        ensures
            final(self).id == old(self).id,
            final(self).angle == state.angle,
            final(self).position == state.pos(),
            final(self).trajectory@ == pushed(
                old(self).trajectory@,
                (state.pos(), time),
                MAX_SAMPLES as int,
            ),
            final(self).score_history@ == pushed(
                old(self).score_history@,
                (scoreboard@[state.id], time),
                MAX_SAMPLES as int,
            ),
            final(self).updated_at() == time,
            final(self).wf(),
    {
        self.angle = state.angle;
        self.position = Position::new(state.x, state.y);
        self.trajectory.push(self.position, time);
        let score: u32 = match scoreboard.get(&state.id) {
            Some(s) => *s,
            None => {
                proof {
                    assert(false);
                }
                0
            },
        };
        self.score_history.push(score, time);
        self.last_update = time;
    }
}

/// The estimator's state: the player map, the current bullet list, the
/// designated local player, and the configuration.
pub struct Analyzer {
    own_player_id: u32,
    players: HashMap<u32, Player>,
    bullets: Vec<Bullet>,
    config: Config,
    last_time: u64,
}

impl Analyzer {
    /// The tracked players, keyed by id.
    pub closed spec fn players_view(&self) -> Map<u32, Player> {
        self.players@
    }

    /// The bullets of the latest snapshot.
    pub closed spec fn bullets_view(&self) -> Seq<Bullet> {
        self.bullets@
    }

    /// The designated local player's id.
    pub closed spec fn own_id(&self) -> u32 {
        self.own_player_id
    }

    /// The configuration the analyzer was built with.
    pub closed spec fn cfg(&self) -> Config {
        self.config
    }

    /// The tick of the latest ingested snapshot.
    pub closed spec fn latest_time(&self) -> u64 {
        self.last_time
    }

    /// Every tracked player is well formed, keyed by its own id, and no
    /// newer than the latest snapshot; every bullet is in range.
    pub open spec fn wf(&self) -> bool {
        &&& self.cfg().wf()
        &&& self.latest_time() <= TIME_LIMIT
        &&& forall|id: u32|
            self.players_view().contains_key(id) ==> {
                let p = #[trigger] self.players_view()[id];
                p.wf() && p.id == id && p.updated_at() <= self.latest_time()
            }
        &&& forall|i: int|
            0 <= i < self.bullets_view().len() ==> (#[trigger] self.bullets_view()[i]).wf()
    }

    /// An empty analyzer with the default configuration.
    pub fn new() -> (r: Self)
        ensures
            r.players_view() == Map::<u32, Player>::empty(),
            r.bullets_view() == Seq::<Bullet>::empty(),
            r.own_id() == 0,
            r.cfg() == default_config(),
            r.latest_time() == 0,
            r.wf(),
    {
        Analyzer {
            own_player_id: 0,
            players: HashMap::new(),
            bullets: Vec::new(),
            config: Config::new(),
            last_time: 0,
        }
    }

    /// An empty analyzer with the given configuration.
    pub fn with_config(config: Config) -> (r: Self)
        requires
            config.wf(),
        ensures
            r.players_view() == Map::<u32, Player>::empty(),
            r.bullets_view() == Seq::<Bullet>::empty(),
            r.own_id() == 0,
            r.cfg() == config,
            r.latest_time() == 0,
            r.wf(),
    {
        Analyzer {
            own_player_id: 0,
            players: HashMap::new(),
            bullets: Vec::new(),
            config,
            last_time: 0,
        }
    }

    /// Folds one snapshot into the analyzer.  Every player the snapshot
    /// reports is updated, or created on first sight; players absent from
    /// the snapshot stay tracked unchanged.  The bullet list is replaced
    /// wholesale by the snapshot's bullets.
    pub fn push_state(&mut self, state: &GameState, time: u64)
        requires
            old(self).wf(),
            state.wf(),
            old(self).latest_time() <= time,
            time <= TIME_LIMIT,
        ensures
            final(self).wf(),
            final(self).own_id() == old(self).own_id(),
            final(self).cfg() == old(self).cfg(),
            final(self).latest_time() == time,
            ({
                let m0 = old(self).players_view();
                let m1 = final(self).players_view();
                forall|id: u32|
                    #![trigger m1.contains_key(id)]
                    m1.contains_key(id) <==> (m0.contains_key(id) || snapshot_has(
                        state.players@,
                        id,
                    ))
            }),
            ({
                let m0 = old(self).players_view();
                let m1 = final(self).players_view();
                forall|id: u32|
                    #![trigger m1[id]]
                    m0.contains_key(id) && !snapshot_has(state.players@, id) ==> m1.contains_key(
                        id,
                    ) && m1[id] == m0[id]
            }),
            forall|i: int|
                #![trigger state.players@[i]]
                0 <= i < state.players@.len() ==> {
                    let ps = state.players@[i];
                    let p = final(self).players_view()[ps.id];
                    &&& final(self).players_view().contains_key(ps.id)
                    &&& p.id == ps.id
                    &&& p.angle == ps.angle
                    &&& p.position == ps.pos()
                    &&& p.updated_at() == time
                    &&& old(self).players_view().contains_key(ps.id) ==> {
                        &&& p.trajectory@ == pushed(
                            old(self).players_view()[ps.id].trajectory@,
                            (ps.pos(), time),
                            MAX_SAMPLES as int,
                        )
                        &&& p.score_history@ == pushed(
                            old(self).players_view()[ps.id].score_history@,
                            (state.scoreboard@[ps.id], time),
                            MAX_SAMPLES as int,
                        )
                    }
                    &&& !old(self).players_view().contains_key(ps.id) ==> {
                        &&& p.trajectory@.len() == 1
                        &&& p.trajectory@[0] == (ps.pos(), time)
                        &&& p.score_history@.len() == 1
                        &&& p.score_history@[0] == (state.scoreboard@[ps.id], time)
                    }
                },
            final(self).bullets_view().len() == state.bullets@.len(),
            forall|i: int|
                0 <= i < state.bullets@.len() ==> #[trigger] final(self).bullets_view()[i]
                    == bullet_from(state.bullets@[i], old(self).cfg().bullet_speed),
    {
        let ghost m0 = self.players@;
        let speed = self.config.bullet_speed;

        let mut bullets: Vec<Bullet> = Vec::new();
        let mut bi: usize = 0;
        while bi < state.bullets.len()
            invariant
                0 <= bi <= state.bullets@.len(),
                state.wf(),
                0 <= speed <= COORD_LIMIT,
                bullets@.len() == bi,
                forall|j: int|
                    0 <= j < bi ==> #[trigger] bullets@[j] == bullet_from(state.bullets@[j], speed)
                        && bullets@[j].wf(),
            decreases state.bullets@.len() - bi,
        {
            bullets.push(Bullet::new(&state.bullets[bi], speed));
            bi = bi + 1;
        }
        self.bullets = bullets;
        self.last_time = time;

        let mut idx: usize = 0;
        while idx < state.players.len()
            invariant
                0 <= idx <= state.players@.len(),
                state.wf(),
                time <= TIME_LIMIT,
                m0 == old(self).players_view(),
                self.own_id() == old(self).own_id(),
                self.cfg() == old(self).cfg(),
                self.cfg().wf(),
                self.latest_time() == time,
                self.bullets_view().len() == state.bullets@.len(),
                forall|i: int|
                    0 <= i < state.bullets@.len() ==> #[trigger] self.bullets_view()[i]
                        == bullet_from(state.bullets@[i], old(self).cfg().bullet_speed)
                        && self.bullets_view()[i].wf(),
                forall|id: u32|
                    self.players_view().contains_key(id) ==> {
                        let p = #[trigger] self.players_view()[id];
                        p.wf() && p.id == id && p.updated_at() <= time
                    },
                forall|id: u32|
                    #![trigger self.players_view().contains_key(id)]
                    self.players_view().contains_key(id) <==> (m0.contains_key(id) || snapshot_has(
                        state.players@.take(idx as int),
                        id,
                    )),
                forall|id: u32|
                    #![trigger self.players_view()[id]]
                    m0.contains_key(id) && !snapshot_has(state.players@.take(idx as int), id)
                        ==> self.players_view().contains_key(id) && self.players_view()[id]
                        == m0[id],
                forall|i: int|
                    #![trigger state.players@[i]]
                    0 <= i < idx ==> {
                        let ps = state.players@[i];
                        let p = self.players_view()[ps.id];
                        &&& self.players_view().contains_key(ps.id)
                        &&& p.id == ps.id
                        &&& p.angle == ps.angle
                        &&& p.position == ps.pos()
                        &&& p.updated_at() == time
                        &&& m0.contains_key(ps.id) ==> {
                            &&& p.trajectory@ == pushed(
                                m0[ps.id].trajectory@,
                                (ps.pos(), time),
                                MAX_SAMPLES as int,
                            )
                            &&& p.score_history@ == pushed(
                                m0[ps.id].score_history@,
                                (state.scoreboard@[ps.id], time),
                                MAX_SAMPLES as int,
                            )
                        }
                        &&& !m0.contains_key(ps.id) ==> {
                            &&& p.trajectory@.len() == 1
                            &&& p.trajectory@[0] == (ps.pos(), time)
                            &&& p.score_history@.len() == 1
                            &&& p.score_history@[0] == (state.scoreboard@[ps.id], time)
                        }
                    },
            decreases state.players@.len() - idx,
        {
            let ps = state.players[idx];
            let ghost mcur = self.players@;
            proof {
                assert(mcur == self.players_view());
                assert(state.players@[idx as int].wf());
                lemma_snapshot_has_take_step(state.players@, idx as int);
                assert(!snapshot_has(state.players@.take(idx as int), ps.id)) by {
                    if snapshot_has(state.players@.take(idx as int), ps.id) {
                        let i = choose|i: int|
                            0 <= i < idx && (#[trigger] state.players@.take(idx as int)[i]).id
                                == ps.id;
                        assert(state.players@.take(idx as int)[i] == state.players@[i]);
                        assert(state.players@[i].id == ps.id && state.players@[idx as int].id
                            == ps.id);
                    }
                }
            }
            match self.players.remove(&ps.id) {
                Some(mut p) => {
                    proof {
                        assert(mcur.contains_key(ps.id) && p == mcur[ps.id]);
                        assert(p.wf() && p.id == ps.id && p.updated_at() <= time);
                        assert(m0.contains_key(ps.id));
                        assert(p == m0[ps.id]);
                        assert(self.players@ == mcur.remove(ps.id));
                    }
                    p.push_state(&ps, &state.scoreboard, time);
                    self.players.insert(ps.id, p);
                },
                None => {
                    proof {
                        assert(!mcur.contains_key(ps.id));
                        assert(!m0.contains_key(ps.id));
                    }
                    let p = Player::with_state(&ps, &state.scoreboard, time);
                    self.players.insert(ps.id, p);
                },
            }
            proof {
                assert(self.players_view() == mcur.remove(ps.id).insert(
                    ps.id,
                    self.players_view()[ps.id],
                ) || self.players_view() == mcur.insert(ps.id, self.players_view()[ps.id]));
                assert forall|id: u32| id != ps.id implies (self.players_view().contains_key(id)
                    <==> mcur.contains_key(id)) && (mcur.contains_key(id)
                    ==> #[trigger] self.players_view()[id] == mcur[id]) by {}
            }
            idx = idx + 1;
        }
        proof {
            assert(state.players@.take(state.players@.len() as int) =~= state.players@);
        }
    }

    /// The result a player lookup pins down: the tracked player for a
    /// known id, `NotFound` otherwise.
    pub fn player(&self, id: u32) -> (r: Result<&Player, AnalyzerError>)
        ensures
            (match r {
                Ok(p) => self.players_view().contains_key(id) && *p == self.players_view()[id],
                Err(e) => !self.players_view().contains_key(id) && e == AnalyzerError::NotFound,
            }),
    {
        match self.players.get(&id) {
            Some(p) => Ok(p),
            None => Err(AnalyzerError::NotFound),
        }
    }

    /// Designates which tracked player is "self" for prediction queries.
    pub fn set_own_player_id(&mut self, id: u32)
        ensures
            final(self).own_id() == id,
            final(self).players_view() == old(self).players_view(),
            final(self).bullets_view() == old(self).bullets_view(),
            final(self).cfg() == old(self).cfg(),
            final(self).latest_time() == old(self).latest_time(),
            old(self).wf() ==> final(self).wf(),
    {
        self.own_player_id = id;
        proof {
            if old(self).wf() {
                assert forall|pid: u32| self.players_view().contains_key(pid) implies {
                    let p = #[trigger] self.players_view()[pid];
                    p.wf() && p.id == pid && p.updated_at() <= self.latest_time()
                } by {
                    assert(old(self).players_view()[pid] == self.players_view()[pid]);
                    assert(old(self).players_view().contains_key(pid));
                }
                assert forall|i: int| 0 <= i < self.bullets_view().len() implies (
                #[trigger] self.bullets_view()[i]).wf() by {
                    assert(self.bullets_view()[i] == old(self).bullets_view()[i]);
                }
                assert(self.wf());
            }
        }
    }

    /// The local player, when its id is tracked.
    pub fn own_player(&self) -> (r: Result<&Player, AnalyzerError>)
        ensures
            (match r {
                Ok(p) => self.players_view().contains_key(self.own_id()) && *p
                    == self.players_view()[self.own_id()],
                Err(e) => !self.players_view().contains_key(self.own_id()) && e
                    == AnalyzerError::NotFound,
            }),
    {
        self.player(self.own_player_id)
    }

    /// The bearing `angle_to` pins down: from the local player's latest
    /// position to the target's, or `NotFound` when either id is
    /// untracked.
    pub open spec fn angle_to_spec(&self, target: u32) -> Result<Heading, AnalyzerError> {
        if !self.players_view().contains_key(self.own_id()) || !self.players_view().contains_key(
            target,
        ) {
            Err(AnalyzerError::NotFound)
        } else {
            let own = self.players_view()[self.own_id()];
            let t = self.players_view()[target];
            Ok(
                Heading {
                    x: (t.position.x - own.position.x) as i64,
                    y: (t.position.y - own.position.y) as i64,
                },
            )
        }
    }

    /// The full-circle bearing from the local player's latest position to
    /// the target's latest position.
    pub fn angle_to(&self, target: u32) -> (r: Result<Heading, AnalyzerError>)
        requires
            self.wf(),
        ensures
            r == self.angle_to_spec(target),
    {
        let own = match self.own_player() {
            Ok(p) => p,
            Err(e) => {
                return Err(e);
            },
        };
        let t = match self.player(target) {
            Ok(p) => p,
            Err(e) => {
                return Err(e);
            },
        };
        Ok(own.position.angle_to(&t.position))
    }

    /// Forecasts, for every tracked bullet, whether and when it comes
    /// within the configured hit radius of the local player inside
    /// `[0, horizon]`, under a constant-velocity assumption; the entries
    /// come back sorted ascending by predicted time.  Fails with
    /// `NotFound` when the local player is untracked, and with
    /// `DegenerateInterval` when its velocity estimate is degenerate.
    pub fn bullets_to_collide(&self, horizon: u64) -> (r: Result<Vec<Prediction>, AnalyzerError>)
        requires
            self.wf(),
            horizon <= TIME_LIMIT,
        ensures
            ({
                let m = self.players_view();
                if !m.contains_key(self.own_id()) {
                    r == Err::<Vec<Prediction>, AnalyzerError>(AnalyzerError::NotFound)
                } else {
                    let own = m[self.own_id()];
                    match last_velocity_spec(own.trajectory@) {
                        Err(_) => r == Err::<Vec<Prediction>, AnalyzerError>(
                            AnalyzerError::DegenerateInterval,
                        ),
                        Ok(pv) => match r {
                            Ok(v) => v@.to_multiset() == forecast_seq(
                                self.bullets_view(),
                                own.position,
                                pv,
                                horizon as int,
                                self.cfg().hit_radius as int,
                            ).to_multiset() && sorted_by_time(v@),
                            Err(_) => false,
                        },
                    }
                }
            }),
    {
        let own = match self.own_player() {
            Ok(p) => p,
            Err(e) => {
                return Err(e);
            },
        };
        let pv = match own.trajectory.last_velocity() {
            Ok(v) => v,
            Err(_) => {
                return Err(AnalyzerError::DegenerateInterval);
            },
        };
        proof {
            lemma_last_velocity_bounded(own.trajectory@);
        }
        let pp = own.position;
        let rad = self.config.hit_radius;
        let ghost bs = self.bullets@;
        let mut cands: Vec<Prediction> = Vec::new();
        proof {
            assert(bs.take(0) =~= Seq::<Bullet>::empty());
        }
        let mut i: usize = 0;
        while i < self.bullets.len()
            invariant
                0 <= i <= bs.len(),
                bs == self.bullets_view(),
                self.wf(),
                pp.wf(),
                -2 * COORD_LIMIT <= pv.dx <= 2 * COORD_LIMIT,
                -2 * COORD_LIMIT <= pv.dy <= 2 * COORD_LIMIT,
                horizon <= TIME_LIMIT,
                0 <= rad <= COORD_LIMIT,
                cands@ == forecast_seq(bs.take(i as int), pp, pv, horizon as int, rad as int),
            decreases bs.len() - i,
        {
            let b = self.bullets[i];
            proof {
                assert(self.bullets_view()[i as int].wf());
                assert(bs.take(i + 1).drop_last() =~= bs.take(i as int));
                assert(bs.take(i + 1).last() == b);
            }
            match check_bullet(&b, pp, pv, horizon, rad) {
                Some(t) => {
                    proof {
                        assert((Prediction { bullet: b, time: t }) == pred_of(
                            b,
                            pp,
                            pv,
                            horizon as int,
                            rad as int,
                        ));
                    }
                    cands.push(Prediction { bullet: b, time: t });
                },
                None => {},
            }
            i = i + 1;
        }
        proof {
            assert(bs.take(bs.len() as int) =~= bs);
        }
        Ok(sort_by_time(cands))
    }
}

/// A bearing query is a pure read: the analyzer's state fully determines
/// its result, so two queries between snapshots return the same bearing.
pub proof fn lemma_angle_to_pure(
    a: &Analyzer,
    target: u32,
    r1: Result<Heading, AnalyzerError>,
    r2: Result<Heading, AnalyzerError>,
)
    requires
        r1 == a.angle_to_spec(target),
        r2 == a.angle_to_spec(target),
    ensures
        r1 == r2,
{
}

/// Extending a prefix of snapshot players by one state extends the set of
/// ids it mentions by exactly that state's id.
proof fn lemma_snapshot_has_take_step(ps: Seq<PlayerState>, k: int)
    requires
        0 <= k < ps.len(),
    ensures
        forall|id: u32|
            #![trigger snapshot_has(ps.take(k + 1), id)]
            snapshot_has(ps.take(k + 1), id) <==> (snapshot_has(ps.take(k), id) || ps[k].id == id),
{
    assert forall|id: u32|
        snapshot_has(ps.take(k + 1), id) <==> (snapshot_has(ps.take(k), id) || ps[k].id
            == id) by {
        if snapshot_has(ps.take(k + 1), id) {
            let i = choose|i: int| 0 <= i < k + 1 && (#[trigger] ps.take(k + 1)[i]).id == id;
            if i < k {
                assert(ps.take(k)[i] == ps.take(k + 1)[i]);
                assert(snapshot_has(ps.take(k), id));
            } else {
                assert(ps.take(k + 1)[k] == ps[k]);
            }
        }
        if snapshot_has(ps.take(k), id) {
            let i = choose|i: int| 0 <= i < k && (#[trigger] ps.take(k)[i]).id == id;
            assert(ps.take(k + 1)[i] == ps.take(k)[i]);
            assert(snapshot_has(ps.take(k + 1), id));
        }
        if ps[k].id == id {
            assert(ps.take(k + 1)[k] == ps[k]);
            assert(snapshot_has(ps.take(k + 1), id));
        }
    }
}

} // verus!
