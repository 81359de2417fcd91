//! The text a language-model planner is given: a deterministic rendering of
//! a decision context followed by the reply format it must use.
use vstd::prelude::*;
use vstd::string::StringExecFns;
use crate::context::DecisionContext;
use crate::events::{EventPayload, EventType, MatchEvent};
use crate::intent::{Action, Intent, IntentStatus};
use crate::context::PlayerRole;
use crate::geometry::Vec2;
use crate::types::{Period, Player};
use crate::wire::status_name;

verus! {

/// Stateless builder of planner prompts.
pub struct PromptGenerator;

pub open spec fn digit_text(d: int) -> Seq<char> {
    if d == 0 { "0"@ } else if d == 1 { "1"@ } else if d == 2 { "2"@ } else if d == 3 { "3"@ }
    else if d == 4 { "4"@ } else if d == 5 { "5"@ } else if d == 6 { "6"@ } else if d == 7 { "7"@ }
    else if d == 8 { "8"@ } else { "9"@ }
}

/// Decimal digits of `n`.
pub open spec fn decimal(n: nat) -> Seq<char>
    decreases n,
{
    if n < 10 { digit_text(n as int) } else { decimal(n / 10) + digit_text((n % 10) as int) }
}

pub open spec fn sign_text(v: int) -> Seq<char> {
    if v < 0 { "-"@ } else { ""@ }
}

pub open spec fn abs(v: int) -> nat {
    if v < 0 { (-v) as nat } else { v as nat }
}

/// A milli-unit value with one decimal, truncated: 34500 is "34.5".
pub open spec fn tenths(v: int) -> Seq<char> {
    let m = abs(v);
    sign_text(v) + decimal(m / 1000) + "."@ + digit_text(((m / 100) % 10) as int)
}

/// A permille value with two decimals, truncated: 700 is "0.70".
pub open spec fn hundredths(v: int) -> Seq<char> {
    let m = abs(v);
    sign_text(v) + decimal(m / 1000) + "."@ + digit_text(((m / 100) % 10) as int) + digit_text(((m / 10) % 10) as int)
}

fn digit_str(d: u64) -> (r: &'static str)
    requires
        d < 10,
    ensures
        r@ == digit_text(d as int),
{
    if d == 0 { "0" } else if d == 1 { "1" } else if d == 2 { "2" } else if d == 3 { "3" }
    else if d == 4 { "4" } else if d == 5 { "5" } else if d == 6 { "6" } else if d == 7 { "7" }
    else if d == 8 { "8" } else { "9" }
}

fn push_decimal(s: &mut String, n: u64)
    ensures
        final(s)@ == old(s)@ + decimal(n as nat),
    decreases n,
{
    if n >= 10 {
        push_decimal(s, n / 10);
    }
    s.append(digit_str(n % 10));
    proof {
        if n >= 10 {
            assert(old(s)@ + decimal((n / 10) as nat) + digit_text((n % 10) as int) =~= old(s)@ + decimal(n as nat));
        }
    }
}

fn magnitude(v: i64) -> (r: u64)
    ensures
        r == abs(v as int),
{
    if v < 0 { (-(v as i128)) as u64 } else { v as u64 }
}

fn push_tenths(s: &mut String, v: i64)
    ensures
        final(s)@ == old(s)@ + tenths(v as int),
{
    let m = magnitude(v);
    s.append(if v < 0 { "-" } else { "" });
    push_decimal(s, m / 1000);
    s.append(".");
    s.append(digit_str((m / 100) % 10));
    proof {
        assert(old(s)@ + sign_text(v as int) + decimal((m / 1000) as nat) + "."@ + digit_text(((m / 100) % 10) as int)
            =~= old(s)@ + tenths(v as int));
    }
}

fn push_hundredths(s: &mut String, v: i64)
    ensures
        final(s)@ == old(s)@ + hundredths(v as int),
{
    let m = magnitude(v);
    s.append(if v < 0 { "-" } else { "" });
    push_decimal(s, m / 1000);
    s.append(".");
    s.append(digit_str((m / 100) % 10));
    s.append(digit_str((m / 10) % 10));
    proof {
        assert(old(s)@ + sign_text(v as int) + decimal((m / 1000) as nat) + "."@ + digit_text(((m / 100) % 10) as int)
            + digit_text(((m / 10) % 10) as int) =~= old(s)@ + hundredths(v as int));
    }
}

fn push_point(s: &mut String, p: Vec2)
    ensures
        final(s)@ == old(s)@ + point_text(p),
{
    s.append("(");
    push_tenths(s, p.x);
    s.append(", ");
    push_tenths(s, p.y);
    s.append(")");
    proof {
        assert(old(s)@ + "("@ + tenths(p.x as int) + ", "@ + tenths(p.y as int) + ")"@ =~= old(s)@ + point_text(p));
    }
}

pub open spec fn period_name(p: Period) -> Seq<char> {
    match p {
        Period::H1 => "H1"@,
        Period::H2 => "H2"@,
        Period::ExtraTime => "ExtraTime"@,
    }
}

pub open spec fn event_name(t: EventType) -> Seq<char> {
    match t {
        EventType::Pass => "Pass"@,
        EventType::Shot => "Shot"@,
        EventType::Tackle => "Tackle"@,
        EventType::Interception => "Interception"@,
        EventType::Press => "Press"@,
        EventType::Turnover => "Turnover"@,
        EventType::SetPiece => "SetPiece"@,
        EventType::Foul => "Foul"@,
        EventType::Save => "Save"@,
        EventType::Goal => "Goal"@,
    }
}

/// Short description of an event from its payload.
pub open spec fn event_desc(p: EventPayload) -> Seq<char> {
    match p {
        EventPayload::Pass { target_player_id, .. } => "Pass to "@ + target_player_id@,
        EventPayload::Goal { scorer_id, .. } => "GOAL by "@ + scorer_id@,
        _ => "Other event"@,
    }
}

pub open spec fn point_text(p: Vec2) -> Seq<char> {
    "("@ + tenths(p.x as int) + ", "@ + tenths(p.y as int) + ")"@
}

pub open spec fn action_text(a: Option<Action>) -> Seq<char> {
    match a {
        None => "None"@,
        Some(Action::AttackSpace { target }) => "AttackSpace "@ + point_text(target),
        Some(Action::MarkPlayer { target_id }) => "MarkPlayer "@ + decimal(target_id as nat),
        Some(Action::FindPassOption) => "FindPassOption"@,
        Some(Action::HoldPosition) => "HoldPosition"@,
        Some(Action::Press { target }) => "Press "@ + point_text(target),
        Some(Action::MoveToBall) => "MoveToBall"@,
        Some(Action::ReturnToPosition { position }) => "ReturnToPosition "@ + point_text(position),
        Some(Action::BlockSpace { target }) => "BlockSpace "@ + point_text(target),
    }
}

pub open spec fn player_line(p: Player) -> Seq<char> {
    "Player "@ + decimal(p.id as nat) + " (Team "@ + decimal(p.team_id as nat) + "): Position "@ + point_text(p.position)
        + ", Stamina "@ + hundredths(p.stamina as int) + ", Morale "@ + hundredths(p.morale as int) + ", "@
        + (if p.has_ball { "HAS_BALL"@ } else { "NO_BALL"@ }) + "\n"@
}

pub open spec fn event_line(e: MatchEvent) -> Seq<char> {
    "["@ + decimal(e.t_ms as nat) + "ms] "@ + event_name(e.event_type) + " - Player "@ + e.player_id@ + " - "@
        + event_desc(e.payload) + "\n"@
}

pub open spec fn intent_line(i: Intent) -> Seq<char> {
    "Player "@ + decimal(i.player_id as nat) + ": Status "@ + status_name(i.status) + ", Action: "@
        + action_text(i.action) + "\n"@
}

pub open spec fn role_line(r: PlayerRole) -> Seq<char> {
    "  Player "@ + decimal(r.player_id as nat) + ": "@ + r.role_name@ + "\n"@
}

pub open spec fn players_text(ps: Seq<Player>) -> Seq<char>
    decreases ps.len(),
{
    if ps.len() == 0 { Seq::empty() } else { players_text(ps.drop_last()) + player_line(ps.last()) }
}

pub open spec fn events_text(es: Seq<MatchEvent>) -> Seq<char>
    decreases es.len(),
{
    if es.len() == 0 { Seq::empty() } else { events_text(es.drop_last()) + event_line(es.last()) }
}

pub open spec fn intents_text(is: Seq<Intent>) -> Seq<char>
    decreases is.len(),
{
    if is.len() == 0 { Seq::empty() } else { intents_text(is.drop_last()) + intent_line(is.last()) }
}

pub open spec fn roles_text(rs: Seq<PlayerRole>) -> Seq<char>
    decreases rs.len(),
{
    if rs.len() == 0 { Seq::empty() } else { roles_text(rs.drop_last()) + role_line(rs.last()) }
}

pub open spec fn first_five(es: Seq<MatchEvent>) -> Seq<MatchEvent> {
    if es.len() <= 5 { es } else { es.subrange(0, 5) }
}

pub open spec fn intro_text() -> Seq<char> {
    "You are a tactical decision engine for a 5v5 football simulation.\nYour task is to determine actions for 10 players based on the current match situation.\nFor each player, decide whether to CONTINUE their current action or assign a NEW action.\n\n"@
}

pub open spec fn task_text() -> Seq<char> {
    "## Your Task\nGenerate a JSON response with actions for all 10 players.\nFormat:\n{\n  \"intents\": [\n    {\n      \"player_id\": <number>,\n      \"status\": \"New\" or \"Continue\",\n      \"action\": {\n        \"type\": \"AttackSpace\" | \"MarkPlayer\" | \"FindPassOption\" | \"HoldPosition\" | \"Press\" | \"MoveToBall\" | \"ReturnToPosition\" | \"BlockSpace\",\n        \"target\": {\"x\": <number>, \"y\": <number>} (if applicable),\n        \"target_id\": <number> (if applicable),\n        \"position\": {\"x\": <number>, \"y\": <number>} (if applicable)\n      } (only if status is \"New\")\n    }\n  ]\n}\n\nImportant:\n- Use \"Continue\" when the current action is still valid\n- Use \"New\" when a new action is needed\n- Include all 10 players in the response\n- Actions should be tactical and context-aware\n"@
}

/// The whole prompt for a context.
pub open spec fn prompt_text(c: DecisionContext) -> Seq<char> {
    let events = first_five(c.recent_events@);
    intro_text()
        + "## Match State\nTime: "@ + decimal(c.current_time_ms as nat) + "ms (Period: "@ + period_name(c.match_state.period)
        + ")\nScore: Home "@ + decimal(c.match_state.home_score as nat) + " - "@ + decimal(c.match_state.away_score as nat)
        + " Away\n\n## Players\n"@ + players_text(c.players@) + "\n"@
        + (if events.len() == 0 { Seq::empty() } else { "## Recent Events\n"@ + events_text(events) + "\n"@ })
        + (if c.current_intents@.len() == 0 { Seq::empty() } else { "## Current Intents\n"@ + intents_text(c.current_intents@) + "\n"@ })
        + "## Tactical Settings\nAttack/Defense Balance: "@ + hundredths(c.tactics.attack_defense_balance as int)
        + "\nPressing Intensity: "@ + hundredths(c.tactics.pressing_intensity as int) + "\n"@
        + (if c.tactics.player_roles@.len() == 0 { Seq::empty() } else { "Player Roles:\n"@ + roles_text(c.tactics.player_roles@) })
        + "\n"@ + task_text()
}

fn period_str(p: Period) -> (r: &'static str)
    ensures
        r@ == period_name(p),
{
    match p {
        Period::H1 => "H1",
        Period::H2 => "H2",
        Period::ExtraTime => "ExtraTime",
    }
}

fn event_str(t: EventType) -> (r: &'static str)
    ensures
        r@ == event_name(t),
{
    match t {
        EventType::Pass => "Pass",
        EventType::Shot => "Shot",
        EventType::Tackle => "Tackle",
        EventType::Interception => "Interception",
        EventType::Press => "Press",
        EventType::Turnover => "Turnover",
        EventType::SetPiece => "SetPiece",
        EventType::Foul => "Foul",
        EventType::Save => "Save",
        EventType::Goal => "Goal",
    }
}

fn status_str(st: IntentStatus) -> (r: &'static str)
    ensures
        r@ == status_name(st),
{
    match st {
        IntentStatus::New => "New",
        IntentStatus::Continue => "Continue",
        IntentStatus::Idle => "Idle",
    }
}

fn push_event_desc(s: &mut String, p: &EventPayload)
    ensures
        final(s)@ == old(s)@ + event_desc(*p),
{
    match p {
        EventPayload::Pass { target_player_id, .. } => {
            s.append("Pass to ");
            s.append(target_player_id.as_str());
            proof { assert(old(s)@ + "Pass to "@ + target_player_id@ =~= old(s)@ + event_desc(*p)); }
        },
        EventPayload::Goal { scorer_id, .. } => {
            s.append("GOAL by ");
            s.append(scorer_id.as_str());
            proof { assert(old(s)@ + "GOAL by "@ + scorer_id@ =~= old(s)@ + event_desc(*p)); }
        },
        _ => {
            s.append("Other event");
        },
    }
}

fn push_action(s: &mut String, a: Option<Action>)
    ensures
        final(s)@ == old(s)@ + action_text(a),
{
    match a {
        None => s.append("None"),
        Some(Action::AttackSpace { target }) => {
            s.append("AttackSpace ");
            push_point(s, target);
            proof { assert(old(s)@ + "AttackSpace "@ + point_text(target) =~= old(s)@ + action_text(a)); }
        },
        Some(Action::MarkPlayer { target_id }) => {
            s.append("MarkPlayer ");
            push_decimal(s, target_id as u64);
            proof { assert(old(s)@ + "MarkPlayer "@ + decimal(target_id as nat) =~= old(s)@ + action_text(a)); }
        },
        Some(Action::FindPassOption) => s.append("FindPassOption"),
        Some(Action::HoldPosition) => s.append("HoldPosition"),
        Some(Action::Press { target }) => {
            s.append("Press ");
            push_point(s, target);
            proof { assert(old(s)@ + "Press "@ + point_text(target) =~= old(s)@ + action_text(a)); }
        },
        Some(Action::MoveToBall) => s.append("MoveToBall"),
        Some(Action::ReturnToPosition { position }) => {
            s.append("ReturnToPosition ");
            push_point(s, position);
            proof { assert(old(s)@ + "ReturnToPosition "@ + point_text(position) =~= old(s)@ + action_text(a)); }
        },
        Some(Action::BlockSpace { target }) => {
            s.append("BlockSpace ");
            push_point(s, target);
            proof { assert(old(s)@ + "BlockSpace "@ + point_text(target) =~= old(s)@ + action_text(a)); }
        },
    }
}

fn push_player_line(s: &mut String, p: &Player)
    ensures
        final(s)@ == old(s)@ + player_line(*p),
{
    s.append("Player ");
    push_decimal(s, p.id as u64);
    s.append(" (Team ");
    push_decimal(s, p.team_id as u64);
    s.append("): Position ");
    push_point(s, p.position);
    s.append(", Stamina ");
    push_hundredths(s, p.stamina);
    s.append(", Morale ");
    push_hundredths(s, p.morale);
    s.append(", ");
    s.append(if p.has_ball { "HAS_BALL" } else { "NO_BALL" });
    s.append("\n");
    proof {
        assert(old(s)@ + "Player "@ + decimal(p.id as nat) + " (Team "@ + decimal(p.team_id as nat) + "): Position "@
            + point_text(p.position) + ", Stamina "@ + hundredths(p.stamina as int) + ", Morale "@
            + hundredths(p.morale as int) + ", "@ + (if p.has_ball { "HAS_BALL"@ } else { "NO_BALL"@ }) + "\n"@
            =~= old(s)@ + player_line(*p));
    }
}

fn push_event_line(s: &mut String, e: &MatchEvent)
    ensures
        final(s)@ == old(s)@ + event_line(*e),
{
    s.append("[");
    push_decimal(s, e.t_ms);
    s.append("ms] ");
    s.append(event_str(e.event_type));
    s.append(" - Player ");
    s.append(e.player_id.as_str());
    s.append(" - ");
    push_event_desc(s, &e.payload);
    s.append("\n");
    proof {
        assert(old(s)@ + "["@ + decimal(e.t_ms as nat) + "ms] "@ + event_name(e.event_type) + " - Player "@
            + e.player_id@ + " - "@ + event_desc(e.payload) + "\n"@ =~= old(s)@ + event_line(*e));
    }
}

fn push_intent_line(s: &mut String, i: &Intent)
    ensures
        final(s)@ == old(s)@ + intent_line(*i),
{
    s.append("Player ");
    push_decimal(s, i.player_id as u64);
    s.append(": Status ");
    s.append(status_str(i.status));
    s.append(", Action: ");
    push_action(s, i.action);
    s.append("\n");
    proof {
        assert(old(s)@ + "Player "@ + decimal(i.player_id as nat) + ": Status "@ + status_name(i.status)
            + ", Action: "@ + action_text(i.action) + "\n"@ =~= old(s)@ + intent_line(*i));
    }
}

fn push_role_line(s: &mut String, r: &PlayerRole)
    ensures
        final(s)@ == old(s)@ + role_line(*r),
{
    s.append("  Player ");
    push_decimal(s, r.player_id as u64);
    s.append(": ");
    s.append(r.role_name.as_str());
    s.append("\n");
    proof {
        assert(old(s)@ + "  Player "@ + decimal(r.player_id as nat) + ": "@ + r.role_name@ + "\n"@
            =~= old(s)@ + role_line(*r));
    }
}

fn push_players(s: &mut String, ps: &Vec<Player>)
    ensures
        final(s)@ == old(s)@ + players_text(ps@),
{
    let ghost start = s@;
    let mut k: usize = 0;
    while k < ps.len()
        invariant
            k <= ps@.len(),
            s@ == start + players_text(ps@.subrange(0, k as int)),
        decreases ps@.len() - k,
    {
        push_player_line(s, &ps[k]);
        proof {
            let pre = ps@.subrange(0, k + 1);
            assert(pre.drop_last() == ps@.subrange(0, k as int));
            assert(pre.last() == ps@[k as int]);
            assert(start + players_text(ps@.subrange(0, k as int)) + player_line(ps@[k as int]) =~= start + players_text(pre));
        }
        k = k + 1;
    }
    proof { assert(ps@.subrange(0, ps@.len() as int) == ps@); }
}

fn push_events(s: &mut String, es: &Vec<MatchEvent>)
    ensures
        final(s)@ == old(s)@ + events_text(first_five(es@)),
{
    let ghost start = s@;
    let ghost shown = first_five(es@);
    let n: usize = if es.len() <= 5 { es.len() } else { 5 };
    let mut k: usize = 0;
    while k < n
        invariant
            shown == first_five(es@),
            n == shown.len(),
            n <= es@.len(),
            k <= n,
            s@ == start + events_text(shown.subrange(0, k as int)),
        decreases n - k,
    {
        push_event_line(s, &es[k]);
        proof {
            let pre = shown.subrange(0, k + 1);
            assert(pre.drop_last() == shown.subrange(0, k as int));
            assert(pre.last() == es@[k as int]);
            assert(start + events_text(shown.subrange(0, k as int)) + event_line(es@[k as int]) =~= start + events_text(pre));
        }
        k = k + 1;
    }
    proof { assert(shown.subrange(0, n as int) == shown); }
}

fn push_intents(s: &mut String, is: &Vec<Intent>)
    ensures
        final(s)@ == old(s)@ + intents_text(is@),
{
    let ghost start = s@;
    let mut k: usize = 0;
    while k < is.len()
        invariant
            k <= is@.len(),
            s@ == start + intents_text(is@.subrange(0, k as int)),
        decreases is@.len() - k,
    {
        push_intent_line(s, &is[k]);
        proof {
            let pre = is@.subrange(0, k + 1);
            assert(pre.drop_last() == is@.subrange(0, k as int));
            assert(pre.last() == is@[k as int]);
            assert(start + intents_text(is@.subrange(0, k as int)) + intent_line(is@[k as int]) =~= start + intents_text(pre));
        }
        k = k + 1;
    }
    proof { assert(is@.subrange(0, is@.len() as int) == is@); }
}

fn push_roles(s: &mut String, rs: &Vec<PlayerRole>)
    ensures
        final(s)@ == old(s)@ + roles_text(rs@),
{
    let ghost start = s@;
    let mut k: usize = 0;
    while k < rs.len()
        invariant
            k <= rs@.len(),
            s@ == start + roles_text(rs@.subrange(0, k as int)),
        decreases rs@.len() - k,
    {
        push_role_line(s, &rs[k]);
        proof {
            let pre = rs@.subrange(0, k + 1);
            assert(pre.drop_last() == rs@.subrange(0, k as int));
            assert(pre.last() == rs@[k as int]);
            assert(start + roles_text(rs@.subrange(0, k as int)) + role_line(rs@[k as int]) =~= start + roles_text(pre));
        }
        k = k + 1;
    }
    proof { assert(rs@.subrange(0, rs@.len() as int) == rs@); }
}

impl PromptGenerator {
    /// Renders a context as planner instructions (see `prompt_text`).
    pub fn generate_prompt(context: &DecisionContext) -> (r: String)
        ensures
            r@ == prompt_text(*context),
    {
        let mut p = String::from_str("You are a tactical decision engine for a 5v5 football simulation.\nYour task is to determine actions for 10 players based on the current match situation.\nFor each player, decide whether to CONTINUE their current action or assign a NEW action.\n\n");
        let ghost s0 = p@;
        p.append("## Match State\nTime: ");
        push_decimal(&mut p, context.current_time_ms);
        p.append("ms (Period: ");
        p.append(period_str(context.match_state.period));
        p.append(")\nScore: Home ");
        push_decimal(&mut p, context.match_state.home_score as u64);
        p.append(" - ");
        push_decimal(&mut p, context.match_state.away_score as u64);
        p.append(" Away\n\n## Players\n");
        push_players(&mut p, &context.players);
        p.append("\n");
        let ghost s1 = p@;
        if context.recent_events.len() > 0 {
            p.append("## Recent Events\n");
            push_events(&mut p, &context.recent_events);
            p.append("\n");
        }
        let ghost s2 = p@;
        if context.current_intents.len() > 0 {
            p.append("## Current Intents\n");
            push_intents(&mut p, &context.current_intents);
            p.append("\n");
        }
        let ghost s3 = p@;
        p.append("## Tactical Settings\nAttack/Defense Balance: ");
        push_hundredths(&mut p, context.tactics.attack_defense_balance);
        p.append("\nPressing Intensity: ");
        push_hundredths(&mut p, context.tactics.pressing_intensity);
        p.append("\n");
        let ghost s4 = p@;
        if context.tactics.player_roles.len() > 0 {
            p.append("Player Roles:\n");
            push_roles(&mut p, &context.tactics.player_roles);
        }
        let ghost s5 = p@;
        p.append("\n");
        p.append("## Your Task\nGenerate a JSON response with actions for all 10 players.\nFormat:\n{\n  \"intents\": [\n    {\n      \"player_id\": <number>,\n      \"status\": \"New\" or \"Continue\",\n      \"action\": {\n        \"type\": \"AttackSpace\" | \"MarkPlayer\" | \"FindPassOption\" | \"HoldPosition\" | \"Press\" | \"MoveToBall\" | \"ReturnToPosition\" | \"BlockSpace\",\n        \"target\": {\"x\": <number>, \"y\": <number>} (if applicable),\n        \"target_id\": <number> (if applicable),\n        \"position\": {\"x\": <number>, \"y\": <number>} (if applicable)\n      } (only if status is \"New\")\n    }\n  ]\n}\n\nImportant:\n- Use \"Continue\" when the current action is still valid\n- Use \"New\" when a new action is needed\n- Include all 10 players in the response\n- Actions should be tactical and context-aware\n");
        proof {
            let c = *context;
            let events = first_five(c.recent_events@);
            assert(events.len() == 0 <==> c.recent_events@.len() == 0);
            assert(s1 =~= intro_text() + "## Match State\nTime: "@ + decimal(c.current_time_ms as nat) + "ms (Period: "@
                + period_name(c.match_state.period) + ")\nScore: Home "@ + decimal(c.match_state.home_score as nat) + " - "@
                + decimal(c.match_state.away_score as nat) + " Away\n\n## Players\n"@ + players_text(c.players@) + "\n"@);
            assert(s2 =~= s1 + (if events.len() == 0 { Seq::empty() } else { "## Recent Events\n"@ + events_text(events) + "\n"@ }));
            assert(s3 =~= s2 + (if c.current_intents@.len() == 0 { Seq::empty() } else { "## Current Intents\n"@ + intents_text(c.current_intents@) + "\n"@ }));
            assert(s5 =~= s4 + (if c.tactics.player_roles@.len() == 0 { Seq::empty() } else { "Player Roles:\n"@ + roles_text(c.tactics.player_roles@) }));
            assert(p@ =~= prompt_text(c));
        }
        p
    }
}

} // verus!
