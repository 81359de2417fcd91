//! Match events, commentary and highlights.
use vstd::prelude::*;
use crate::geometry::Vec2;

verus! {

#[derive(Debug, Clone, Copy, PartialEq, Eq, Structural)]
pub enum EventType {
    Pass,
    Shot,
    Tackle,
    Interception,
    Press,
    Turnover,
    SetPiece,
    Foul,
    Save,
    Goal,
}

/// Event-specific details; distances in milli-units, risk in permille.
#[derive(Debug)]
pub enum EventPayload {
    Pass { target_player_id: String, distance: i64, risk: i64 },
    Shot { distance: i64, angle: i64, on_target: bool },
    Tackle { on_player_id: String, successful: bool },
    Goal { scorer_id: String, assist_id: Option<String> },
    Empty,
}

impl EventPayload {
    /// A value copy of the payload.
    pub fn snapshot(&self) -> (r: EventPayload)
        ensures
            r == *self,
    {
        match self {
            EventPayload::Pass { target_player_id, distance, risk } =>
                EventPayload::Pass { target_player_id: target_player_id.clone(), distance: *distance, risk: *risk },
            EventPayload::Shot { distance, angle, on_target } =>
                EventPayload::Shot { distance: *distance, angle: *angle, on_target: *on_target },
            EventPayload::Tackle { on_player_id, successful } =>
                EventPayload::Tackle { on_player_id: on_player_id.clone(), successful: *successful },
            EventPayload::Goal { scorer_id, assist_id } => {
                let assist = match assist_id {
                    Some(a) => Some(a.clone()),
                    None => None,
                };
                EventPayload::Goal { scorer_id: scorer_id.clone(), assist_id: assist }
            },
            EventPayload::Empty => EventPayload::Empty,
        }
    }
}

#[derive(Debug, Clone, Copy, PartialEq, Eq, Structural)]
pub enum EventOutcome {
    Complete,
    Incomplete,
    Success,
    Failure,
}

/// Something that happened in the match.
#[derive(Debug)]
pub struct MatchEvent {
    pub id: String,
    pub t_ms: u64,
    pub period: String,
    pub event_type: EventType,
    pub team_id: String,
    pub player_id: String,
    pub location: Vec2,
    pub payload: EventPayload,
    pub outcome: EventOutcome,
}

impl MatchEvent {
    /// A value copy of the event.
    pub fn snapshot(&self) -> (r: MatchEvent)
        ensures
            r == *self,
    {
        MatchEvent {
            id: self.id.clone(),
            t_ms: self.t_ms,
            period: self.period.clone(),
            event_type: self.event_type,
            team_id: self.team_id.clone(),
            player_id: self.player_id.clone(),
            location: self.location,
            payload: self.payload.snapshot(),
            outcome: self.outcome,
        }
    }
}

#[derive(Debug, Clone, Copy, PartialEq, Eq, Structural)]
pub enum Tone {
    Calm,
    Aggressive,
    Excited,
}

#[derive(Debug, Clone)]
pub struct Commentary {
    pub event_id: String,
    pub text: String,
    pub tone: Tone,
    pub latency_ms: u64,
}

#[derive(Debug, Clone, Copy, PartialEq, Eq, Structural)]
pub enum HighlightStatus {
    Queued,
    Rendering,
    Done,
    Error,
}

#[derive(Debug, Clone)]
pub struct Highlight {
    pub event_id: String,
    pub status: HighlightStatus,
    pub prompt: String,
    pub image_path: Option<String>,
    pub duration_ms: u64,
}

} // verus!
