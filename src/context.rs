//! The snapshot handed to a planner, and the planner capability itself.
use vstd::prelude::*;
use crate::events::MatchEvent;
use crate::game::GameWorld;
use crate::intent::{Intent, ActionPlan};
use crate::types::{Player, MatchState};

verus! {

/// How many of the latest events a snapshot carries.
pub const RECENT_EVENT_LIMIT: usize = 5;

/// A player's role label for the planner.
#[derive(Debug, Clone)]
pub struct PlayerRole {
    pub player_id: u32,
    pub role_name: String,
}

/// Team-wide settings, in permille.
#[derive(Debug)]
pub struct TacticalSettings {
    /// 0 is all defence, 1000 all attack.
    pub attack_defense_balance: i64,
    pub pressing_intensity: i64,
    pub player_roles: Vec<PlayerRole>,
}

impl TacticalSettings {
    /// Balanced settings with no role assignments.
    pub fn default() -> (r: TacticalSettings)
        ensures
            r.attack_defense_balance == 500,
            r.pressing_intensity == 500,
            r.player_roles@.len() == 0,
    {
        TacticalSettings { attack_defense_balance: 500, pressing_intensity: 500, player_roles: Vec::new() }
    }
}

/// A value copy of the simulation at the start of a planning cycle.
#[derive(Debug)]
pub struct DecisionContext {
    /// Most recent first.
    pub recent_events: Vec<MatchEvent>,
    pub players: Vec<Player>,
    pub match_state: MatchState,
    pub current_intents: Vec<Intent>,
    pub tactics: TacticalSettings,
    pub current_time_ms: u64,
}

/// Errors a planner reports. The orchestrator treats them all alike.
#[derive(Debug, Clone)]
pub enum LlmEngineError {
    ModelLoadFailed(String),
    InferenceFailed(String),
    InvalidResponse(String),
    Timeout,
}

/// A planning backend: maps a snapshot to a plan, possibly slowly, possibly
/// failing.
pub trait LlmEngine {
    fn generate_action_plan(&mut self, context: &DecisionContext) -> Result<ActionPlan, LlmEngineError>;

    fn is_ready(&self) -> bool;
}

/// The latest `RECENT_EVENT_LIMIT` events of `s`, most recent first.
pub open spec fn recent(s: Seq<MatchEvent>) -> Seq<MatchEvent> {
    let n: nat = if s.len() < RECENT_EVENT_LIMIT { s.len() } else { RECENT_EVENT_LIMIT as nat };
    Seq::new(n, |k: int| s[s.len() - 1 - k])
}

/// Snapshots the world for a planner.
pub fn create_decision_context(world: &GameWorld) -> (r: DecisionContext)
    ensures
        r.recent_events@ == recent(world.events@),
        r.players@ == world.players@,
        r.match_state == world.match_state,
        r.current_intents@ == world.current_intents@,
        r.tactics.attack_defense_balance == 500,
        r.tactics.pressing_intensity == 500,
        r.tactics.player_roles@.len() == 0,
        r.current_time_ms == world.match_state.time_ms,
{
    let n = world.events.len();
    let take: usize = if n < RECENT_EVENT_LIMIT { n } else { RECENT_EVENT_LIMIT };
    let mut recent_events: Vec<MatchEvent> = Vec::new();
    let mut k: usize = 0;
    while k < take
        invariant
            n == world.events@.len(),
            take <= n,
            take == recent(world.events@).len(),
            k <= take,
            recent_events@ == recent(world.events@).subrange(0, k as int),
        decreases take - k,
    {
        let e = world.events[n - 1 - k].snapshot();
        proof {
            assert(recent(world.events@).subrange(0, k + 1) == recent(world.events@).subrange(0, k as int).push(e));
        }
        recent_events.push(e);
        k = k + 1;
    }
    proof { assert(recent(world.events@).subrange(0, take as int) == recent(world.events@)); }

    let mut players: Vec<Player> = Vec::new();
    let mut k: usize = 0;
    while k < world.players.len()
        invariant
            k <= world.players@.len(),
            players@ == world.players@.subrange(0, k as int),
        decreases world.players@.len() - k,
    {
        let p = world.players[k].snapshot();
        proof {
            assert(world.players@.subrange(0, k + 1) == world.players@.subrange(0, k as int).push(p));
        }
        players.push(p);
        k = k + 1;
    }
    proof { assert(world.players@.subrange(0, world.players@.len() as int) == world.players@); }

    let mut current_intents: Vec<Intent> = Vec::new();
    let mut k: usize = 0;
    while k < world.current_intents.len()
        invariant
            k <= world.current_intents@.len(),
            current_intents@ == world.current_intents@.subrange(0, k as int),
        decreases world.current_intents@.len() - k,
    {
        let i = world.current_intents[k];
        proof {
            assert(world.current_intents@.subrange(0, k + 1) == world.current_intents@.subrange(0, k as int).push(i));
        }
        current_intents.push(i);
        k = k + 1;
    }
    proof { assert(world.current_intents@.subrange(0, world.current_intents@.len() as int) == world.current_intents@); }

    DecisionContext {
        recent_events,
        players,
        match_state: world.match_state,
        current_intents,
        tactics: TacticalSettings::default(),
        current_time_ms: world.match_state.time_ms,
    }
}

} // verus!
