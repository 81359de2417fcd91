use eleven_fc::geometry::Vec2;
use eleven_fc::intent::{Action, ActionPlan, Intent, IntentStatus};
use eleven_fc::wire::{
    action_from_fields, build_intent, find_member, parse_action, parse_entry, parse_milli, parse_response, parse_status,
    parse_u64, plan_from_json, Json,
};

fn point(p: &Vec2) -> String {
    format!("{{\"x\": {}, \"y\": {}}}", p.x as f64 / 1000.0, p.y as f64 / 1000.0)
}

fn action_json(a: &Action) -> String {
    match a {
        Action::AttackSpace { target } => format!("{{\"type\": \"AttackSpace\", \"target\": {}}}", point(target)),
        Action::MarkPlayer { target_id } => format!("{{\"type\": \"MarkPlayer\", \"target_id\": {}}}", target_id),
        Action::FindPassOption => "{\"type\": \"FindPassOption\"}".to_string(),
        Action::HoldPosition => "{\"type\": \"HoldPosition\"}".to_string(),
        Action::Press { target } => format!("{{\"type\": \"Press\", \"target\": {}}}", point(target)),
        Action::MoveToBall => "{\"type\": \"MoveToBall\"}".to_string(),
        Action::ReturnToPosition { position } => {
            format!("{{\"type\": \"ReturnToPosition\", \"position\": {}}}", point(position))
        }
        Action::BlockSpace { target } => format!("{{\"type\": \"BlockSpace\", \"target\": {}}}", point(target)),
    }
}

fn plan_json(plan: &ActionPlan) -> String {
    let entries: Vec<String> = plan
        .intents
        .iter()
        .map(|i| {
            let status = if i.status == IntentStatus::New { "New" } else { "Continue" };
            match &i.action {
                Some(a) => format!("{{\"player_id\": {}, \"status\": \"{}\", \"action\": {}}}", i.player_id, status, action_json(a)),
                None => format!("{{\"player_id\": {}, \"status\": \"{}\"}}", i.player_id, status),
            }
        })
        .collect();
    format!("{{\"intents\": [{}]}}", entries.join(", "))
}

#[test]
fn plan_round_trips_through_wire_json() {
    let actions = vec![
        Action::AttackSpace { target: Vec2::new(34_500, 60_000) },
        Action::MarkPlayer { target_id: 7 },
        Action::FindPassOption,
        Action::HoldPosition,
        Action::Press { target: Vec2::new(-1_250, 0) },
        Action::MoveToBall,
        Action::ReturnToPosition { position: Vec2::new(10_000, 20_125) },
        Action::BlockSpace { target: Vec2::new(58_000, 95_000) },
    ];
    let mut intents: Vec<Intent> =
        actions.iter().enumerate().map(|(k, a)| Intent::new(k as u32, IntentStatus::New, Some(*a), 700)).collect();
    intents.push(Intent::new(9, IntentStatus::Continue, None, 700));
    let plan = ActionPlan::new(intents.clone(), 700, 40);
    let back = parse_response(&plan_json(&plan), 700, 40).unwrap();
    assert_eq!(back.intents, intents);
    assert_eq!((back.generated_at_ms, back.latency_ms), (700, 40));
}

#[test]
fn empty_plan_parses_to_no_intents() {
    let plan = parse_response("{\"intents\":[]}", 5, 6).unwrap();
    assert!(plan.intents.is_empty());
}

#[test]
fn unparseable_reply_fails_whole_plan() {
    let e = parse_response("not json at all", 0, 0).unwrap_err();
    assert!(e.starts_with("Failed to parse JSON: "));
    assert!(e.len() > "Failed to parse JSON: ".len());
}

#[test]
fn missing_intents_array_fails() {
    assert_eq!(parse_response("{\"plans\": []}", 0, 0).unwrap_err(), "Missing 'intents' array");
    assert_eq!(parse_response("{\"intents\": 3}", 0, 0).unwrap_err(), "Missing 'intents' array");
}

#[test]
fn entry_faults_fail_whole_plan() {
    assert_eq!(parse_response("{\"intents\":[{\"status\":\"New\"}]}", 0, 0).unwrap_err(), "Missing player_id");
    assert_eq!(parse_response("{\"intents\":[{\"player_id\":-1,\"status\":\"New\"}]}", 0, 0).unwrap_err(), "Missing player_id");
    assert_eq!(parse_response("{\"intents\":[{\"player_id\":1}]}", 0, 0).unwrap_err(), "Missing status");
    assert_eq!(
        parse_response("{\"intents\":[{\"player_id\":1,\"status\":\"Idle\"}]}", 0, 0).unwrap_err(),
        "Invalid status: Idle"
    );
}

#[test]
fn status_is_case_insensitive() {
    let plan = parse_response(
        "{\"intents\":[{\"player_id\":1,\"status\":\"NEW\",\"action\":{\"type\":\"MoveToBall\"}},{\"player_id\":2,\"status\":\"cOnTiNuE\"}]}",
        3,
        0,
    )
    .unwrap();
    assert_eq!(plan.intents[0], Intent::new(1, IntentStatus::New, Some(Action::MoveToBall), 3));
    assert_eq!(plan.intents[1], Intent::new(2, IntentStatus::Continue, None, 3));
    assert_eq!(parse_status("New"), Some(IntentStatus::New));
    assert_eq!(parse_status("CONTINUE"), Some(IntentStatus::Continue));
    assert_eq!(parse_status("news"), None);
}

#[test]
fn malformed_action_is_dropped_not_fatal() {
    let plan = parse_response(
        "{\"intents\":[{\"player_id\":1,\"status\":\"New\",\"action\":{\"type\":\"Press\"}},{\"player_id\":2,\"status\":\"New\",\"action\":{\"type\":\"Dance\"}},{\"player_id\":3,\"status\":\"New\",\"action\":{\"type\":\"AttackSpace\",\"target\":{\"x\":1}}}]}",
        0,
        0,
    )
    .unwrap();
    assert_eq!(plan.intents.len(), 3);
    assert!(plan.intents.iter().all(|i| i.action.is_none() && i.status == IntentStatus::New));
}

#[test]
fn continue_ignores_action_field() {
    let plan = parse_response(
        "{\"intents\":[{\"player_id\":4,\"status\":\"Continue\",\"action\":{\"type\":\"MoveToBall\"}}]}",
        0,
        0,
    )
    .unwrap();
    assert_eq!(plan.intents[0].action, None);
}

#[test]
fn decimal_coordinates_read_as_milli_units() {
    assert_eq!(parse_milli("34.5"), Some(34_500));
    assert_eq!(parse_milli("-2"), Some(-2_000));
    assert_eq!(parse_milli("0.1239"), Some(123));
    assert_eq!(parse_milli("100000"), Some(100_000_000));
    assert_eq!(parse_milli("100000.001"), None);
    assert_eq!(parse_milli("1e5"), None);
    assert_eq!(parse_milli("."), None);
    assert_eq!(parse_milli("3."), None);
    assert_eq!(parse_milli(""), None);
}

#[test]
fn fields_build_actions_and_intents() {
    let t = Vec2::new(1, 2);
    assert_eq!(action_from_fields("BlockSpace", Some(t), None, None), Some(Action::BlockSpace { target: t }));
    assert_eq!(action_from_fields("ReturnToPosition", Some(t), None, None), None);
    assert_eq!(action_from_fields("MarkPlayer", None, Some(4_294_967_297), None), Some(Action::MarkPlayer { target_id: 1 }));
    assert_eq!(build_intent(None, Some("new"), None, 0), Err("Missing player_id".to_string()));
    assert_eq!(build_intent(Some(3), None, None, 0), Err("Missing status".to_string()));
    assert_eq!(build_intent(Some(3), Some("idle"), None, 0), Err("Invalid status: idle".to_string()));
    assert_eq!(
        build_intent(Some(3), Some("continue"), Some(Action::MoveToBall), 8),
        Ok(Intent::new(3, IntentStatus::Continue, None, 8))
    );
}

#[test]
fn parsed_coordinates_use_the_number_text() {
    let plan = parse_response(
        "{\"intents\":[{\"player_id\":0,\"status\":\"New\",\"action\":{\"type\":\"Press\",\"target\":{\"x\":12,\"y\":-0.5}}}]}",
        0,
        0,
    )
    .unwrap();
    assert_eq!(plan.intents[0].action, Some(Action::Press { target: Vec2::new(12_000, -500) }));
}

fn num(t: &str) -> Json {
    Json::Number(t.to_string())
}

fn text(t: &str) -> Json {
    Json::Text(t.to_string())
}

fn obj(members: Vec<(&str, Json)>) -> Json {
    Json::Object(members.into_iter().map(|(k, v)| (k.to_string(), v)).collect())
}

#[test]
fn only_the_bad_action_is_dropped() {
    let plan = parse_response(
        "{\"intents\":[{\"player_id\":2,\"status\":\"New\",\"action\":{\"type\":\"AttackSpace\",\"target\":{\"x\":1}}},{\"player_id\":3,\"status\":\"new\",\"action\":{\"type\":\"MoveToBall\"}}]}",
        0,
        0,
    )
    .unwrap();
    assert_eq!(plan.intents, vec![
        Intent::new(2, IntentStatus::New, None, 0),
        Intent::new(3, IntentStatus::New, Some(Action::MoveToBall), 0),
    ]);
}

#[test]
fn empty_object_and_non_array_intents_fail() {
    assert_eq!(parse_response("{}", 0, 0).unwrap_err(), "Missing 'intents' array");
    assert_eq!(parse_response("[1, 2]", 0, 0).unwrap_err(), "Missing 'intents' array");
}

#[test]
fn tiny_exponent_coordinates_read_as_zero() {
    assert_eq!(parse_milli("1.5e-07"), Some(0));
    assert_eq!(parse_milli("-1e-6"), Some(0));
    assert_eq!(parse_milli("9.99e-4"), Some(0));
    assert_eq!(parse_milli("1e-3"), None);
    assert_eq!(parse_milli("12e-7"), None);
    assert_eq!(parse_milli("1.e-7"), None);
    assert_eq!(parse_milli("1e+16"), None);
    let plan = parse_response(
        "{\"intents\":[{\"player_id\":0,\"status\":\"New\",\"action\":{\"type\":\"Press\",\"target\":{\"x\":0.0000001,\"y\":-0.000002}}}]}",
        0,
        0,
    )
    .unwrap();
    assert_eq!(plan.intents[0].action, Some(Action::Press { target: Vec2::new(0, 0) }));
}

#[test]
fn unsigned_integers_read_exactly() {
    assert_eq!(parse_u64("0"), Some(0));
    assert_eq!(parse_u64("18446744073709551615"), Some(u64::MAX));
    assert_eq!(parse_u64("18446744073709551616"), None);
    assert_eq!(parse_u64("-1"), None);
    assert_eq!(parse_u64("5.0"), None);
    assert_eq!(parse_u64(""), None);
}

#[test]
fn document_model_reads_members_and_actions() {
    let action = obj(vec![("type", text("ReturnToPosition")), ("position", obj(vec![("x", num("3.25")), ("y", num("4"))]))]);
    assert_eq!(parse_action(&action), Some(Action::ReturnToPosition { position: Vec2::new(3_250, 4_000) }));
    assert_eq!(parse_action(&obj(vec![("type", num("1"))])), None);
    assert!(find_member(&action, "type").is_some());
    assert!(find_member(&text("x"), "type").is_none());
    let entry = obj(vec![("player_id", num("6")), ("status", text("Continue")), ("action", action)]);
    assert_eq!(parse_entry(&entry, 12), Ok(Intent::new(6, IntentStatus::Continue, None, 12)));
}

#[test]
fn document_model_builds_plan_in_entry_order() {
    let doc = obj(vec![(
        "intents",
        Json::Array(vec![
            obj(vec![("player_id", num("4")), ("status", text("NEW")), ("action", obj(vec![("type", text("MarkPlayer")), ("target_id", num("8"))]))]),
            obj(vec![("player_id", num("1")), ("status", text("continue"))]),
        ]),
    )]);
    let plan = plan_from_json(&doc, 50, 9).unwrap();
    assert_eq!(plan.intents, vec![
        Intent::new(4, IntentStatus::New, Some(Action::MarkPlayer { target_id: 8 }), 50),
        Intent::new(1, IntentStatus::Continue, None, 50),
    ]);
    assert_eq!((plan.generated_at_ms, plan.latency_ms), (50, 9));
    let bad = obj(vec![("intents", Json::Array(vec![obj(vec![("player_id", num("1"))]), obj(vec![("status", text("x"))])]))]);
    assert_eq!(plan_from_json(&bad, 0, 0).unwrap_err(), "Missing status");
    assert_eq!(plan_from_json(&Json::Null, 0, 0).unwrap_err(), "Missing 'intents' array");
}
