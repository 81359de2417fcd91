//! The simulation's entities: players, personas, the ball and the match clock.
use vstd::prelude::*;
use crate::geometry::{Vec2, MILLI, COORD_LIMIT};

verus! {

/// Largest permille value: the fixed-point form of 1.0.
pub const PERMILLE: i64 = 1000;

pub open spec fn is_permille(v: i64) -> bool {
    0 <= v <= PERMILLE
}

/// Preferences for three attacking patterns, each in permille.
#[derive(Debug, Clone, Copy, PartialEq, Eq, Structural)]
pub struct PatternPreference {
    pub switch_play: i64,
    pub through_ball: i64,
    pub cut_back: i64,
}

impl PatternPreference {
    pub open spec fn wf(self) -> bool {
        is_permille(self.switch_play) && is_permille(self.through_ball) && is_permille(self.cut_back)
    }

    pub fn default() -> (r: PatternPreference)
        ensures
            r.wf(),
            r.switch_play == 500 && r.through_ball == 500 && r.cut_back == 500,
    {
        PatternPreference { switch_play: 500, through_ball: 500, cut_back: 500 }
    }
}

/// Static behavioural parameters of one player. All but `vision_range` are
/// permille; `vision_range` is a distance in milli-units.
#[derive(Debug, Clone, Copy, PartialEq, Eq, Structural)]
pub struct Persona {
    pub risk_appetite: i64,
    pub pressing_intensity: i64,
    pub vision_range: i64,
    pub patience: i64,
    pub work_rate: i64,
    pub pattern_preference: PatternPreference,
    pub discipline: i64,
    pub aggression: i64,
    pub confidence: i64,
}

impl Persona {
    pub open spec fn wf(self) -> bool {
        &&& is_permille(self.risk_appetite)
        &&& is_permille(self.pressing_intensity)
        &&& 0 < self.vision_range <= COORD_LIMIT
        &&& is_permille(self.patience)
        &&& is_permille(self.work_rate)
        &&& self.pattern_preference.wf()
        &&& is_permille(self.discipline)
        &&& is_permille(self.aggression)
        &&& is_permille(self.confidence)
    }

    /// Every parameter at one half; vision range fifteen units.
    pub fn default() -> (r: Persona)
        ensures
            r.wf(),
            r.risk_appetite == 500 && r.pressing_intensity == 500 && r.patience == 500,
            r.work_rate == 500 && r.discipline == 500 && r.aggression == 500 && r.confidence == 500,
            r.vision_range == 15 * MILLI,
            r.pattern_preference.switch_play == 500 && r.pattern_preference.through_ball == 500,
            r.pattern_preference.cut_back == 500,
    {
        Persona {
            risk_appetite: 500,
            pressing_intensity: 500,
            vision_range: 15 * MILLI,
            patience: 500,
            work_rate: 500,
            pattern_preference: PatternPreference::default(),
            discipline: 500,
            aggression: 500,
            confidence: 500,
        }
    }
}

/// A player's public state.
#[derive(Debug)]
pub struct Player {
    pub id: u32,
    /// 0 for the home side, 1 for the away side.
    pub team_id: u8,
    pub role: String,
    pub position: Vec2,
    /// Permille.
    pub stamina: i64,
    /// Permille.
    pub morale: i64,
    pub has_ball: bool,
    pub persona: Persona,
}

impl Player {
    pub open spec fn wf(self) -> bool {
        &&& self.team_id <= 1
        &&& self.position.wf()
        &&& is_permille(self.stamina)
        &&& is_permille(self.morale)
        &&& self.persona.wf()
    }

    /// A value copy of the player.
    pub fn snapshot(&self) -> (r: Player)
        ensures
            r == *self,
    {
        Player {
            id: self.id,
            team_id: self.team_id,
            role: self.role.clone(),
            position: self.position,
            stamina: self.stamina,
            morale: self.morale,
            has_ball: self.has_ball,
            persona: self.persona,
        }
    }
}

/// The ball; `owner` is the id of the carrier, if any.
#[derive(Debug, Clone, Copy, PartialEq, Eq, Structural)]
pub struct Ball {
    pub position: Vec2,
    /// Milli-units per second.
    pub velocity: Vec2,
    pub owner: Option<u32>,
}

impl Ball {
    pub open spec fn wf(self) -> bool {
        self.position.wf() && self.velocity.wf()
    }

    /// A free ball at rest at `(x, y)`.
    pub fn new(x: i64, y: i64) -> (r: Ball)
        ensures
            r.position == (Vec2 { x, y }),
            r.velocity == (Vec2 { x: 0, y: 0 }),
            r.owner is None,
    {
        Ball { position: Vec2 { x, y }, velocity: Vec2 { x: 0, y: 0 }, owner: None }
    }
}

#[derive(Debug, Clone, Copy, PartialEq, Eq, Structural)]
pub enum Period {
    H1,
    H2,
    ExtraTime,
}

/// Score and clock; `time_ms` drives physics, expiry and planning cadence.
#[derive(Debug, Clone, Copy, PartialEq, Eq, Structural)]
pub struct MatchState {
    pub period: Period,
    pub time_ms: u64,
    pub home_score: u8,
    pub away_score: u8,
}

#[derive(Debug, Clone, Copy, PartialEq, Eq, Structural)]
pub enum Formation {
    TwoOneOne,
    ThreeOneZero,
    TwoTwoZero,
}

#[derive(Debug, Clone, Copy, PartialEq, Eq, Structural)]
pub enum Zone {
    Defense,
    Midfield,
    Attack,
}

#[derive(Debug, Clone, Copy, PartialEq, Eq, Structural)]
pub enum Behavior {
    Hold,
    Press,
    Overlap,
}

#[derive(Debug, Clone, Copy, PartialEq, Eq, Structural)]
pub struct Role {
    pub zone: Zone,
    pub behavior: Behavior,
}

#[derive(Debug, Clone, Copy, PartialEq, Eq, Structural)]
pub enum Trigger {
    PressOnLoss,
    OverlapLeft,
    OverlapRight,
}

/// A team's tactical setup.
#[derive(Debug, Clone)]
pub struct Tactics {
    pub formation: Formation,
    pub roles: Vec<Role>,
    pub triggers: Vec<Trigger>,
}

} // verus!
