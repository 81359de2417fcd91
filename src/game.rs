//! The simulated match: players, ball, clock, installed intents, and the
//! fixed-step tick that moves everything.
use vstd::prelude::*;
use vstd::string::StringExecFns;
use crate::geometry::{Vec2, COORD_LIMIT};
use crate::intent::{Intent, Action, intent_for, live_at, merge_all, find_intent, merge_intents, expire_intents};
use crate::physics::{
    FIELD_WIDTH, FIELD_HEIGHT, MIN_DISTANCE, MAX_DELTA_MS, MAX_NEIGHBOURS, clamp_int, move_spec, avoid_spec,
    first_in_range, ball_step, in_field, move_towards, avoid_collision, check_ball_ownership, update_ball,
    lemma_first_in_range,
};
use crate::types::{Player, Persona, Ball, MatchState, Period};
use crate::events::MatchEvent;

verus! {

/// A player closer than this to the ball takes possession.
pub const POSSESSION_RANGE: i64 = 1_500;
/// Free-ball friction, in permille per second.
pub const BALL_FRICTION: i64 = 950;
/// Baseline the home side falls back to when it has nothing better to do.
pub const HOME_BASELINE_X: i64 = 10_000;
/// Baseline the away side falls back to.
pub const AWAY_BASELINE_X: i64 = 58_000;

/// The whole simulated match.
#[derive(Debug)]
pub struct GameWorld {
    pub players: Vec<Player>,
    pub ball: Ball,
    pub match_state: MatchState,
    pub events: Vec<MatchEvent>,
    pub current_intents: Vec<Intent>,
}

pub open spec fn unique_ids(ps: Seq<Player>) -> bool {
    forall|i: int, j: int| 0 <= i < ps.len() && 0 <= j < ps.len() && i != j ==> #[trigger] ps[i].id != #[trigger] ps[j].id
}

/// Possession is consistent: a player holds the ball exactly when the ball
/// names them as owner, the carrier stands on the ball, and an owner named
/// by the ball is one of the players.
pub open spec fn possession_consistent(ps: Seq<Player>, ball: Ball) -> bool {
    &&& forall|k: int| 0 <= k < ps.len() ==> (#[trigger] ps[k].has_ball <==> ball.owner == Some(ps[k].id))
    &&& forall|k: int| 0 <= k < ps.len() && #[trigger] ps[k].has_ball ==> ps[k].position == ball.position
    &&& ball.owner is Some ==> exists|k: int| 0 <= k < ps.len() && #[trigger] ps[k].id == ball.owner->0
}

pub open spec fn wf_players(ps: Seq<Player>) -> bool {
    &&& ps.len() <= MAX_NEIGHBOURS
    &&& forall|k: int| 0 <= k < ps.len() ==> (#[trigger] ps[k]).wf()
    &&& unique_ids(ps)
}

/// Index of the first player with `id`.
pub open spec fn player_index(ps: Seq<Player>, id: u32) -> Option<int>
    decreases ps.len(),
{
    if ps.len() == 0 {
        None
    } else {
        match player_index(ps.drop_last(), id) {
            Some(k) => Some(k),
            None => if ps.last().id == id { Some(ps.len() - 1) } else { None },
        }
    }
}

pub open spec fn player_position(ps: Seq<Player>, id: u32) -> Option<Vec2> {
    match player_index(ps, id) {
        Some(k) => Some(ps[k].position),
        None => None,
    }
}

proof fn lemma_player_index(ps: Seq<Player>, id: u32)
    ensures
        match player_index(ps, id) {
            Some(k) => 0 <= k < ps.len() && ps[k].id == id && forall|j: int| 0 <= j < k ==> #[trigger] ps[j].id != id,
            None => forall|j: int| 0 <= j < ps.len() ==> #[trigger] ps[j].id != id,
        },
    decreases ps.len(),
{
    if ps.len() > 0 {
        lemma_player_index(ps.drop_last(), id);
        assert forall|j: int| 0 <= j < ps.len() - 1 implies #[trigger] ps[j] == ps.drop_last()[j] by {}
    }
}

/// Where an action sends a player, before clamping; `None` where a
/// referenced player does not exist.
pub open spec fn action_target(ps: Seq<Player>, ball: Ball, player_id: u32, a: Action) -> Option<Vec2> {
    match a {
        Action::AttackSpace { target } => Some(target),
        Action::Press { target } => Some(target),
        Action::BlockSpace { target } => Some(target),
        Action::ReturnToPosition { position } => Some(position),
        Action::MoveToBall => Some(ball.position),
        Action::MarkPlayer { target_id } => player_position(ps, target_id),
        Action::FindPassOption => player_position(ps, player_id),
        Action::HoldPosition => player_position(ps, player_id),
    }
}

pub open spec fn intent_target(ps: Seq<Player>, ball: Ball, player_id: u32, i: Intent) -> Option<Vec2> {
    match i.action {
        Some(a) => action_target(ps, ball, player_id, a),
        None => None,
    }
}

/// Chase a free ball; otherwise fall back to the team's baseline, keeping y.
pub open spec fn default_target(ball: Ball, p: Player) -> Vec2 {
    if ball.owner is None {
        ball.position
    } else {
        Vec2 { x: if p.team_id == 0 { HOME_BASELINE_X } else { AWAY_BASELINE_X }, y: p.position.y }
    }
}

pub open spec fn clamp_vec(v: Vec2) -> Vec2 {
    Vec2 {
        x: clamp_int(v.x as int, -COORD_LIMIT as int, COORD_LIMIT as int) as i64,
        y: clamp_int(v.y as int, -COORD_LIMIT as int, COORD_LIMIT as int) as i64,
    }
}

/// The movement target of player `k` given the installed intents.
pub open spec fn resolved_target(ps: Seq<Player>, ball: Ball, intents: Seq<Intent>, k: int) -> Vec2 {
    let p = ps[k];
    let t = match intent_for(intents, p.id) {
        Some(i) => intent_target(ps, ball, p.id, i),
        None => None,
    };
    match t {
        Some(v) => clamp_vec(v),
        None => default_target(ball, p),
    }
}

pub open spec fn positions(ps: Seq<Player>) -> Seq<Vec2> {
    Seq::new(ps.len(), |k: int| ps[k].position)
}

/// `s` without its `k`-th element.
pub open spec fn skip(s: Seq<Vec2>, k: int) -> Seq<Vec2> {
    s.subrange(0, k) + s.subrange(k + 1, s.len() as int)
}

/// Top speed of a player, in milli-units per second: five units per second
/// scaled by work rate.
pub open spec fn max_speed(p: Player) -> int {
    5 * p.persona.work_rate
}

/// Where player `k` ends the movement phase: a carrier stays on the ball;
/// everyone else steps toward the target, then takes one avoidance nudge.
pub open spec fn stepped_position(ps: Seq<Player>, ball: Ball, intents: Seq<Intent>, k: int, delta_ms: int) -> Vec2 {
    let p = ps[k];
    if p.has_ball {
        p.position
    } else {
        let m = move_spec(p.position, resolved_target(ps, ball, intents, k), (max_speed(p) * delta_ms) / 1000);
        clamp_vec(avoid_spec(m, skip(positions(ps), k), MIN_DISTANCE as int))
    }
}

pub open spec fn with_position(p: Player, v: Vec2) -> Player {
    Player { position: v, ..p }
}

/// The players after the movement phase.
pub open spec fn moved_players(ps: Seq<Player>, ball: Ball, intents: Seq<Intent>, delta_ms: int) -> Seq<Player> {
    Seq::new(ps.len(), |k: int| with_position(ps[k], stepped_position(ps, ball, intents, k, delta_ms)))
}

/// Possession flags after the ownership pass, given the new owner.
pub open spec fn with_owner(p: Player, owner: Option<u32>, ball_position: Vec2) -> Player {
    let holds = owner == Some(p.id);
    Player { has_ball: holds, position: if holds { ball_position } else { p.position }, ..p }
}

fn clamp_coord(c: i64) -> (r: i64)
    ensures
        r == clamp_int(c as int, -COORD_LIMIT as int, COORD_LIMIT as int),
{
    if c < -COORD_LIMIT { -COORD_LIMIT } else if c > COORD_LIMIT { COORD_LIMIT } else { c }
}

fn clamp_point(v: Vec2) -> (r: Vec2)
    ensures
        r == clamp_vec(v),
        r.wf(),
{
    Vec2 { x: clamp_coord(v.x), y: clamp_coord(v.y) }
}

fn others_except(pos: &Vec<Vec2>, k: usize) -> (r: Vec<Vec2>)
    requires
        k < pos@.len(),
    ensures
        r@ == skip(pos@, k as int),
{
    let mut r: Vec<Vec2> = Vec::new();
    let mut j: usize = 0;
    while j < pos.len()
        invariant
            k < pos@.len(),
            j <= pos@.len(),
            j <= k ==> r@ == pos@.subrange(0, j as int),
            j > k ==> r@ == pos@.subrange(0, k as int) + pos@.subrange(k + 1, j as int),
        decreases pos@.len() - j,
    {
        if j != k {
            r.push(pos[j]);
        }
        proof {
            if j < k {
                assert(pos@.subrange(0, j + 1) == pos@.subrange(0, j as int).push(pos@[j as int]));
            } else if j == k {
                assert(pos@.subrange(k + 1, j + 1) =~= Seq::<Vec2>::empty());
                assert(pos@.subrange(0, k as int) + Seq::<Vec2>::empty() == pos@.subrange(0, k as int));
            } else {
                assert(pos@.subrange(k + 1, j + 1) == pos@.subrange(k + 1, j as int).push(pos@[j as int]));
            }
        }
        j = j + 1;
    }
    r
}

impl GameWorld {
    pub open spec fn wf(&self) -> bool {
        &&& wf_players(self.players@)
        &&& self.ball.wf()
        &&& in_field(self.ball.position)
        &&& possession_consistent(self.players@, self.ball)
    }

    /// Moves the intents of a plan into the installed set (see `merge_intents`).
    pub fn update_intents(&mut self, intents: Vec<Intent>)
        ensures
            final(self).current_intents@ == merge_all(old(self).current_intents@, intents@),
            final(self).players == old(self).players,
            final(self).ball == old(self).ball,
            final(self).match_state == old(self).match_state,
            final(self).events == old(self).events,
    {
        merge_intents(&mut self.current_intents, intents);
    }

    fn position_of(&self, id: u32) -> (r: Option<Vec2>)
        ensures
            r == player_position(self.players@, id),
    {
        proof { lemma_player_index(self.players@, id); }
        let mut k: usize = 0;
        while k < self.players.len()
            invariant
                k <= self.players@.len(),
                forall|j: int| 0 <= j < k ==> #[trigger] self.players@[j].id != id,
            decreases self.players@.len() - k,
        {
            if self.players[k].id == id {
                proof {
                    lemma_player_index(self.players@, id);
                    match player_index(self.players@, id) {
                        Some(f) => { assert(f == k); },
                        None => {},
                    }
                }
                return Some(self.players[k].position);
            }
            k = k + 1;
        }
        proof { lemma_player_index(self.players@, id); }
        None
    }

    /// The movement target of player `k` under the installed intents.
    fn resolve_target(&self, k: usize) -> (r: Vec2)
        requires
            k < self.players@.len(),
            self.ball.wf(),
            forall|j: int| 0 <= j < self.players@.len() ==> (#[trigger] self.players@[j]).wf(),
        ensures
            r == resolved_target(self.players@, self.ball, self.current_intents@, k as int),
            r.wf(),
    {
        let id = self.players[k].id;
        let found = match find_intent(&self.current_intents, id) {
            Some(intent) => self.get_target_from_intent(id, &intent),
            None => None,
        };
        match found {
            Some(v) => clamp_point(v),
            None => {
                if self.ball.owner.is_none() {
                    self.ball.position
                } else {
                    let x = if self.players[k].team_id == 0 { HOME_BASELINE_X } else { AWAY_BASELINE_X };
                    Vec2 { x, y: self.players[k].position.y }
                }
            },
        }
    }

    /// Resolves an intent's action to a concrete target.
    pub fn get_target_from_intent(&self, player_id: u32, intent: &Intent) -> (r: Option<Vec2>)
        ensures
            r == intent_target(self.players@, self.ball, player_id, *intent),
    {
        match intent.action {
            Some(Action::AttackSpace { target }) => Some(target),
            Some(Action::Press { target }) => Some(target),
            Some(Action::MoveToBall) => Some(self.ball.position),
            Some(Action::ReturnToPosition { position }) => Some(position),
            Some(Action::BlockSpace { target }) => Some(target),
            Some(Action::MarkPlayer { target_id }) => self.position_of(target_id),
            Some(Action::FindPassOption) => self.position_of(player_id),
            Some(Action::HoldPosition) => self.position_of(player_id),
            None => None,
        }
    }
}

/// Every tick keeps at most one carrier, and a carrier is exactly the player
/// the ball names as owner.
pub proof fn lemma_single_carrier(w: &GameWorld, a: int, b: int)
    requires
        w.wf(),
        0 <= a < w.players@.len(),
        0 <= b < w.players@.len(),
        w.players@[a].has_ball,
        w.players@[b].has_ball,
    ensures
        a == b,
        w.ball.owner == Some(w.players@[a].id),
{
    assert(w.players@[a].has_ball);
    assert(w.players@[b].has_ball);
}

/// The players of `team`, in order.
pub open spec fn team_members(ps: Seq<Player>, team: u8) -> Seq<Player>
    decreases ps.len(),
{
    if ps.len() == 0 {
        Seq::empty()
    } else if ps.last().team_id == team {
        team_members(ps.drop_last(), team).push(ps.last())
    } else {
        team_members(ps.drop_last(), team)
    }
}

fn make_player(id: u32, team_id: u8, position: Vec2, persona: Persona) -> (r: Player)
    ensures
        r.id == id && r.team_id == team_id && r.position == position && r.persona == persona,
        r.stamina == 1000 && r.morale == 700 && !r.has_ball,
        r.role@ == "Player"@,
{
    Player {
        id,
        team_id,
        role: String::from_str("Player"),
        position,
        stamina: 1000,
        morale: 700,
        has_ball: false,
        persona,
    }
}

impl GameWorld {
    /// Kick-off of a five-a-side match: home ids 0..4, away ids 5..9, the
    /// ball at the first home player's feet, clock at zero.
    pub fn new_5v5() -> (r: GameWorld)
        ensures
            r.wf(),
            r.players@.len() == 10,
            forall|k: int| 0 <= k < 10 ==> #[trigger] r.players@[k].id == k,
            forall|k: int| 0 <= k < 5 ==> #[trigger] r.players@[k].team_id == 0,
            forall|k: int| 5 <= k < 10 ==> #[trigger] r.players@[k].team_id == 1,
            r.ball.owner == Some(0u32),
            r.ball.position == (Vec2 { x: 10_000, y: 10_000 }),
            r.match_state == (MatchState { period: Period::H1, time_ms: 0, home_score: 0, away_score: 0 }),
            r.events@.len() == 0,
            r.current_intents@.len() == 0,
    {
        let home = vec![
            Vec2 { x: 10_000, y: 10_000 },
            Vec2 { x: 10_000, y: 20_000 },
            Vec2 { x: 20_000, y: 40_000 },
            Vec2 { x: 30_000, y: 60_000 },
            Vec2 { x: 50_000, y: 80_000 },
        ];
        let away = vec![
            Vec2 { x: 58_000, y: 95_000 },
            Vec2 { x: 58_000, y: 85_000 },
            Vec2 { x: 48_000, y: 65_000 },
            Vec2 { x: 38_000, y: 45_000 },
            Vec2 { x: 18_000, y: 25_000 },
        ];
        let mut players: Vec<Player> = Vec::new();
        let mut i: usize = 0;
        while i < 5
            invariant
                home@.len() == 5,
                forall|j: int| 0 <= j < 5 ==> (#[trigger] home@[j]).wf(),
                home@[0] == (Vec2 { x: 10_000, y: 10_000 }),
                i <= 5,
                players@.len() == i,
                forall|j: int| 0 <= j < i ==> (#[trigger] players@[j]).id == j && players@[j].team_id == 0
                    && players@[j].wf() && !players@[j].has_ball && players@[j].position == home@[j],
            decreases 5 - i,
        {
            let mut persona = Persona::default();
            persona.risk_appetite = 300 + (i as i64) * 100;
            players.push(make_player(i as u32, 0, home[i], persona));
            i = i + 1;
        }
        let mut i: usize = 0;
        while i < 5
            invariant
                away@.len() == 5,
                forall|j: int| 0 <= j < 5 ==> (#[trigger] away@[j]).wf(),
                players@[0].position == (Vec2 { x: 10_000, y: 10_000 }),
                i <= 5,
                players@.len() == 5 + i,
                forall|j: int| 0 <= j < 5 + i ==> (#[trigger] players@[j]).id == j
                    && players@[j].wf() && !players@[j].has_ball,
                forall|j: int| 0 <= j < 5 ==> (#[trigger] players@[j]).team_id == 0,
                forall|j: int| 5 <= j < 5 + i ==> (#[trigger] players@[j]).team_id == 1,
            decreases 5 - i,
        {
            let mut persona = Persona::default();
            persona.risk_appetite = 400 + (i as i64) * 100;
            persona.pressing_intensity = 600;
            players.push(make_player((i + 5) as u32, 1, away[i], persona));
            i = i + 1;
        }
        let mut ball = Ball::new(FIELD_WIDTH / 2, FIELD_HEIGHT / 2);
        let first = make_player(0, 0, players[0].position, players[0].persona);
        let first = Player { has_ball: true, ..first };
        players.set(0, first);
        ball.owner = Some(0);
        ball.position = players[0].position;
        let w = GameWorld {
            players,
            ball,
            match_state: MatchState { period: Period::H1, time_ms: 0, home_score: 0, away_score: 0 },
            events: Vec::new(),
            current_intents: Vec::new(),
        };
        proof {
            let ps = w.players@;
            assert forall|a: int, b: int| 0 <= a < ps.len() && 0 <= b < ps.len() && a != b implies #[trigger] ps[a].id != #[trigger] ps[b].id by {}
            assert(ps[0].id == 0);
            assert(possession_consistent(ps, w.ball));
        }
        w
    }

    /// The home side's players, in order.
    pub fn home_players(&self) -> (r: Vec<&Player>)
        ensures
            r@.len() == team_members(self.players@, 0).len(),
            forall|k: int| 0 <= k < r@.len() ==> r@[k] == #[trigger] team_members(self.players@, 0)[k],
    {
        self.team_players(0)
    }

    /// The away side's players, in order.
    pub fn away_players(&self) -> (r: Vec<&Player>)
        ensures
            r@.len() == team_members(self.players@, 1).len(),
            forall|k: int| 0 <= k < r@.len() ==> r@[k] == #[trigger] team_members(self.players@, 1)[k],
    {
        self.team_players(1)
    }

    fn team_players(&self, team: u8) -> (r: Vec<&Player>)
        ensures
            r@.len() == team_members(self.players@, team).len(),
            forall|k: int| 0 <= k < r@.len() ==> r@[k] == #[trigger] team_members(self.players@, team)[k],
    {
        let mut r: Vec<&Player> = Vec::new();
        let mut k: usize = 0;
        while k < self.players.len()
            invariant
                k <= self.players@.len(),
                r@.len() == team_members(self.players@.subrange(0, k as int), team).len(),
                forall|j: int| 0 <= j < r@.len() ==> r@[j] == #[trigger] team_members(self.players@.subrange(0, k as int), team)[j],
            decreases self.players@.len() - k,
        {
            proof {
                let pre = self.players@.subrange(0, k + 1);
                assert(pre.drop_last() == self.players@.subrange(0, k as int));
                assert(pre.last() == self.players@[k as int]);
            }
            if self.players[k].team_id == team {
                r.push(&self.players[k]);
            }
            k = k + 1;
        }
        proof { assert(self.players@.subrange(0, self.players@.len() as int) == self.players@); }
        r
    }

    /// One fixed step of `delta_ms`: advance the clock, drop expired intents,
    /// move every player who is not carrying the ball, then resolve
    /// possession; a ball nobody reaches rolls on freely.
    pub fn tick(&mut self, delta_ms: u64)
        requires
            old(self).wf(),
            delta_ms <= MAX_DELTA_MS,
            old(self).match_state.time_ms + delta_ms <= u64::MAX,
        ensures
            final(self).wf(),
            final(self).match_state == (MatchState { time_ms: (old(self).match_state.time_ms + delta_ms) as u64, ..old(self).match_state }),
            final(self).current_intents@ == live_at(old(self).current_intents@, final(self).match_state.time_ms as int),
            final(self).events == old(self).events,
            ({
                let mid = moved_players(old(self).players@, old(self).ball, final(self).current_intents@, delta_ms as int);
                match first_in_range(old(self).ball.position, mid, POSSESSION_RANGE as int) {
                    Some(c) => {
                        &&& final(self).ball == (Ball { owner: Some(mid[c].id), ..old(self).ball })
                        &&& final(self).players@ == Seq::new(mid.len(), |k: int| with_owner(mid[k], Some(mid[c].id), old(self).ball.position))
                    },
                    None => {
                        &&& final(self).ball == ball_step(Ball { owner: None, ..old(self).ball }, delta_ms as int, BALL_FRICTION as int)
                        &&& final(self).players@ == Seq::new(mid.len(), |k: int| with_owner(mid[k], None, old(self).ball.position))
                    },
                }
            }),
    {
        self.match_state.time_ms = self.match_state.time_ms + delta_ms;
        expire_intents(&mut self.current_intents, self.match_state.time_ms);
        let ghost ps = self.players@;
        let n = self.players.len();

        let mut current_positions: Vec<Vec2> = Vec::new();
        let mut k: usize = 0;
        while k < n
            invariant
                n == ps.len(),
                self.players@ == ps,
                k <= n,
                current_positions@ == positions(ps).subrange(0, k as int),
            decreases n - k,
        {
            current_positions.push(self.players[k].position);
            proof {
                assert(positions(ps).subrange(0, k + 1) == positions(ps).subrange(0, k as int).push(ps[k as int].position));
            }
            k = k + 1;
        }
        proof { assert(positions(ps).subrange(0, n as int) == positions(ps)); }

        let ghost mid = moved_players(ps, self.ball, self.current_intents@, delta_ms as int);
        let mut moved: Vec<Player> = Vec::new();
        let mut i: usize = 0;
        while i < n
            invariant
                n == ps.len(),
                self.players@ == ps,
                wf_players(ps),
                self.ball.wf(),
                current_positions@ == positions(ps),
                delta_ms <= MAX_DELTA_MS,
                mid == moved_players(ps, self.ball, self.current_intents@, delta_ms as int),
                i <= n,
                moved@ == mid.subrange(0, i as int),
                forall|j: int| 0 <= j < i ==> (#[trigger] moved@[j]).wf(),
            decreases n - i,
        {
            let p = &self.players[i];
            let pos = if p.has_ball {
                p.position
            } else {
                let target = self.resolve_target(i);
                let others = others_except(&current_positions, i);
                assert forall|j: int| 0 <= j < others@.len() implies (#[trigger] others@[j]).wf() by {
                    if j < i {
                        assert(others@[j] == ps[j].position);
                    } else {
                        assert(others@[j] == ps[j + 1].position);
                    }
                }
                let stepped = move_towards(p.position, target, 5 * p.persona.work_rate, delta_ms);
                let avoided = avoid_collision(stepped, &others, MIN_DISTANCE);
                clamp_point(avoided)
            };
            let q = Player {
                id: p.id,
                team_id: p.team_id,
                role: p.role.clone(),
                position: pos,
                stamina: p.stamina,
                morale: p.morale,
                has_ball: p.has_ball,
                persona: p.persona,
            };
            proof {
                assert(q == mid[i as int]);
                assert(mid.subrange(0, i + 1) == mid.subrange(0, i as int).push(q));
            }
            moved.push(q);
            i = i + 1;
        }
        proof { assert(mid.subrange(0, n as int) == mid); }

        let owner = check_ball_ownership(&self.ball, &moved, POSSESSION_RANGE);
        let ghost ball0 = self.ball;
        let ball_position = self.ball.position;
        let mut settled: Vec<Player> = Vec::new();
        let mut j: usize = 0;
        while j < n
            invariant
                n == mid.len(),
                moved@ == mid,
                j <= n,
                settled@ == Seq::new(mid.len(), |k: int| with_owner(mid[k], owner, ball_position)).subrange(0, j as int),
            decreases n - j,
        {
            let p = &moved[j];
            let holds = match owner {
                Some(o) => o == p.id,
                None => false,
            };
            let q = Player {
                id: p.id,
                team_id: p.team_id,
                role: p.role.clone(),
                position: if holds { ball_position } else { p.position },
                stamina: p.stamina,
                morale: p.morale,
                has_ball: holds,
                persona: p.persona,
            };
            proof {
                let full = Seq::new(mid.len(), |k: int| with_owner(mid[k], owner, ball_position));
                assert(q == full[j as int]);
                assert(full.subrange(0, j + 1) == full.subrange(0, j as int).push(q));
            }
            settled.push(q);
            j = j + 1;
        }
        proof {
            let full = Seq::new(mid.len(), |k: int| with_owner(mid[k], owner, ball_position));
            assert(full.subrange(0, n as int) == full);
        }
        self.players = settled;
        match owner {
            Some(o) => {
                self.ball.owner = Some(o);
            },
            None => {
                self.ball.owner = None;
                update_ball(&mut self.ball, delta_ms, BALL_FRICTION);
            },
        }
        proof {
            lemma_first_in_range(ball0.position, mid, POSSESSION_RANGE as int);
            let fin = self.players@;
            assert forall|a: int, b: int| 0 <= a < fin.len() && 0 <= b < fin.len() && a != b implies #[trigger] fin[a].id != #[trigger] fin[b].id by {
                assert(fin[a].id == ps[a].id && fin[b].id == ps[b].id);
            }
            assert forall|a: int| 0 <= a < fin.len() implies (#[trigger] fin[a]).wf() by {
                assert(mid[a].wf());
            }
            assert(wf_players(fin));
            assert forall|a: int| 0 <= a < fin.len() implies (#[trigger] fin[a].has_ball <==> self.ball.owner == Some(fin[a].id)) by {}
            assert forall|a: int| 0 <= a < fin.len() && #[trigger] fin[a].has_ball implies fin[a].position == self.ball.position by {}
            if self.ball.owner is Some {
                match first_in_range(ball0.position, mid, POSSESSION_RANGE as int) {
                    Some(c) => { assert(fin[c].id == self.ball.owner->0); },
                    None => {},
                }
            }
            assert(possession_consistent(fin, self.ball));
        }
    }
}

} // verus!
