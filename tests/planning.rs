use eleven_fc::context::{create_decision_context, LlmEngineError};
use eleven_fc::events::{EventOutcome, EventPayload, EventType, MatchEvent};
use eleven_fc::game::GameWorld;
use eleven_fc::geometry::Vec2;
use eleven_fc::intent::{expire_intents, merge_intents, Action, ActionPlan, Intent, IntentStatus};
use eleven_fc::orchestrator::{finish_cycle, request_plan, DecisionTimer};
use eleven_fc::prompt::PromptGenerator;

fn intent(id: u32, status: IntentStatus, action: Option<Action>, at: u64) -> Intent {
    Intent::new(id, status, action, at)
}

fn event(n: u64, payload: EventPayload) -> MatchEvent {
    MatchEvent {
        id: format!("e{}", n),
        t_ms: n * 100,
        period: "H1".to_string(),
        event_type: EventType::Pass,
        team_id: "home".to_string(),
        player_id: format!("{}", n),
        location: Vec2::new(0, 0),
        payload,
        outcome: EventOutcome::Complete,
    }
}

#[test]
fn expiry_boundary_is_inclusive() {
    let mut i = intent(1, IntentStatus::New, Some(Action::MoveToBall), 1_000);
    i.duration_ms = Some(500);
    assert!(!i.is_expired(1_000));
    assert!(!i.is_expired(1_500));
    assert!(i.is_expired(1_501));
    assert!(i.is_expired(u64::MAX));
    let forever = intent(1, IntentStatus::New, None, 1_000);
    assert!(!forever.is_expired(u64::MAX));
}

#[test]
fn expire_drops_only_expired_intents() {
    let mut a = intent(1, IntentStatus::New, None, 0);
    a.duration_ms = Some(100);
    let mut b = intent(2, IntentStatus::New, None, 0);
    b.duration_ms = Some(300);
    let c = intent(3, IntentStatus::New, None, 0);
    let mut set = vec![a, b, c];
    expire_intents(&mut set, 200);
    assert_eq!(set, vec![b, c]);
}

#[test]
fn merge_new_replaces_prior_intent() {
    let old = intent(4, IntentStatus::Continue, Some(Action::HoldPosition), 0);
    let other = intent(5, IntentStatus::New, None, 0);
    let mut set = vec![old, other];
    let fresh = intent(4, IntentStatus::New, None, 900);
    merge_intents(&mut set, vec![fresh]);
    assert_eq!(set, vec![other, fresh]);
}

#[test]
fn merge_continue_keeps_installed_intent() {
    let mut installed = intent(4, IntentStatus::New, Some(Action::Press { target: Vec2::new(1, 2) }), 10);
    installed.duration_ms = Some(5_000);
    let mut set = vec![installed];
    merge_intents(&mut set, vec![intent(4, IntentStatus::Continue, None, 999)]);
    assert_eq!(set, vec![installed]);
}

#[test]
fn merge_continue_fills_a_gap() {
    let mut set = vec![];
    let fill = intent(2, IntentStatus::Continue, None, 7);
    merge_intents(&mut set, vec![fill]);
    assert_eq!(set, vec![fill]);
}

#[test]
fn merge_idle_clears_and_batch_order_applies() {
    let a = intent(1, IntentStatus::New, Some(Action::MoveToBall), 0);
    let mut set = vec![a];
    let b = intent(1, IntentStatus::New, Some(Action::HoldPosition), 1);
    merge_intents(&mut set, vec![intent(1, IntentStatus::Idle, None, 1), b]);
    assert_eq!(set, vec![b]);
    merge_intents(&mut set, vec![b, intent(1, IntentStatus::Idle, None, 2)]);
    assert!(set.is_empty());
}

#[test]
fn merge_of_empty_batch_changes_nothing() {
    let a = intent(1, IntentStatus::New, Some(Action::MoveToBall), 0);
    let b = intent(2, IntentStatus::Continue, None, 0);
    let mut set = vec![a, b];
    merge_intents(&mut set, vec![]);
    assert_eq!(set, vec![a, b]);
}

#[test]
fn plan_lookup_finds_first_intent() {
    let a = intent(1, IntentStatus::New, Some(Action::MoveToBall), 0);
    let b = intent(1, IntentStatus::Continue, None, 0);
    let plan = ActionPlan::new(vec![a, b], 10, 20);
    assert_eq!(plan.get_intent(1), Some(&a));
    assert_eq!(plan.get_intent(2), None);
    assert_eq!((plan.generated_at_ms, plan.latency_ms), (10, 20));
}

#[test]
fn failed_cycle_stamps_timer_and_keeps_intents() {
    let mut w = GameWorld::new_5v5();
    let kept = intent(3, IntentStatus::New, Some(Action::MoveToBall), 0);
    w.update_intents(vec![kept]);
    w.match_state.time_ms = 1_200;
    let mut timer = DecisionTimer::new(1_000);
    let ctx = request_plan(&mut timer, &w, true);
    assert!(ctx.is_some());
    assert_eq!(timer.last_decision_ms, 1_200);
    finish_cycle(&mut w, Err(LlmEngineError::InferenceFailed("boom".to_string())));
    assert_eq!(w.current_intents, vec![kept]);
    w.match_state.time_ms = 1_300;
    assert!(request_plan(&mut timer, &w, true).is_none());
    assert_eq!(timer.last_decision_ms, 1_200);
    w.tick(100);
    assert_eq!(w.current_intents, vec![kept]);
}

#[test]
fn cycle_waits_for_interval_and_readiness() {
    let mut w = GameWorld::new_5v5();
    let mut timer = DecisionTimer::new(1_000);
    w.match_state.time_ms = 999;
    assert!(!timer.is_due(999));
    assert!(request_plan(&mut timer, &w, true).is_none());
    assert_eq!(timer.last_decision_ms, 0);
    w.match_state.time_ms = 1_000;
    assert!(request_plan(&mut timer, &w, false).is_none());
    assert_eq!(timer.last_decision_ms, 1_000);
    assert!(!timer.begin_cycle(1_999, true));
    assert!(timer.begin_cycle(2_000, true));
    assert_eq!(timer.last_decision_ms, 2_000);
}

#[test]
fn successful_cycle_merges_plan() {
    let mut w = GameWorld::new_5v5();
    let a = intent(2, IntentStatus::New, Some(Action::MoveToBall), 5);
    finish_cycle(&mut w, Ok(ActionPlan::new(vec![a], 5, 1)));
    assert_eq!(w.current_intents, vec![a]);
    finish_cycle(&mut w, Ok(ActionPlan::new(vec![], 6, 1)));
    assert_eq!(w.current_intents, vec![a]);
}

#[test]
fn context_takes_five_latest_events_newest_first() {
    let mut w = GameWorld::new_5v5();
    for n in 0..7 {
        w.events.push(event(n, EventPayload::Empty));
    }
    w.match_state.time_ms = 4_200;
    let c = create_decision_context(&w);
    let times: Vec<u64> = c.recent_events.iter().map(|e| e.t_ms).collect();
    assert_eq!(times, vec![600, 500, 400, 300, 200]);
    assert_eq!(c.players.len(), 10);
    assert_eq!(c.current_time_ms, 4_200);
    assert_eq!(c.tactics.attack_defense_balance, 500);
}

#[test]
fn prompt_renders_state_events_and_intents() {
    let mut w = GameWorld::new_5v5();
    w.events.push(event(3, EventPayload::Pass { target_player_id: "7".to_string(), distance: 1_000, risk: 200 }));
    w.events.push(event(4, EventPayload::Goal { scorer_id: "9".to_string(), assist_id: None }));
    w.update_intents(vec![intent(2, IntentStatus::New, Some(Action::Press { target: Vec2::new(34_500, -1_250) }), 0)]);
    w.match_state.time_ms = 1_500;
    let p = PromptGenerator::generate_prompt(&create_decision_context(&w));
    assert!(p.starts_with("You are a tactical decision engine for a 5v5 football simulation.\n"));
    assert!(p.contains("Time: 1500ms (Period: H1)\nScore: Home 0 - 0 Away\n"));
    assert!(p.contains("Player 0 (Team 0): Position (10.0, 10.0), Stamina 1.00, Morale 0.70, HAS_BALL\n"));
    assert!(p.contains("Player 9 (Team 1): Position (18.0, 25.0), Stamina 1.00, Morale 0.70, NO_BALL\n"));
    assert!(p.contains("## Recent Events\n[400ms] Pass - Player 4 - GOAL by 9\n[300ms] Pass - Player 3 - Pass to 7\n"));
    assert!(p.contains("## Current Intents\nPlayer 2: Status New, Action: Press (34.5, -1.2)\n"));
    assert!(p.contains("Attack/Defense Balance: 0.50\nPressing Intensity: 0.50\n"));
    assert!(p.ends_with("- Actions should be tactical and context-aware\n"));
}

#[test]
fn prompt_omits_empty_sections() {
    let w = GameWorld::new_5v5();
    let p = PromptGenerator::generate_prompt(&create_decision_context(&w));
    assert!(!p.contains("## Recent Events"));
    assert!(!p.contains("## Current Intents"));
    assert!(!p.contains("Player Roles:"));
}
