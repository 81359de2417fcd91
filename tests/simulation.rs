use eleven_fc::game::{GameWorld, POSSESSION_RANGE};
use eleven_fc::geometry::Vec2;
use eleven_fc::intent::{Action, Intent, IntentStatus};
use eleven_fc::physics::{
    avoid_collision, check_ball_ownership, move_towards, update_ball, FIELD_HEIGHT, FIELD_WIDTH, MIN_DISTANCE,
};
use eleven_fc::types::{Ball, Persona, Player};

fn player(id: u32, team_id: u8, x: i64, y: i64) -> Player {
    Player {
        id,
        team_id,
        role: "Player".to_string(),
        position: Vec2::new(x, y),
        stamina: 1000,
        morale: 700,
        has_ball: false,
        persona: Persona::default(),
    }
}

fn carriers(w: &GameWorld) -> Vec<u32> {
    w.players.iter().filter(|p| p.has_ball).map(|p| p.id).collect()
}

#[test]
fn distance_is_rounded_down_root() {
    let a = Vec2::new(0, 0);
    assert_eq!(a.distance(&Vec2::new(3000, 4000)), 5000);
    assert_eq!(a.distance(&Vec2::new(1, 1)), 1);
    assert_eq!(Vec2::new(-3000, 0).length(), 3000);
}

#[test]
fn normalize_scales_to_one_unit_and_keeps_zero() {
    assert_eq!(Vec2::new(3000, 4000).normalize(), Vec2::new(600, 800));
    assert_eq!(Vec2::new(0, -7).normalize(), Vec2::new(0, -1000));
    assert_eq!(Vec2::new(0, 0).normalize(), Vec2::new(0, 0));
}

#[test]
fn move_towards_steps_at_most_speed_times_dt() {
    let r = move_towards(Vec2::new(0, 0), Vec2::new(10_000, 0), 2_500, 100);
    assert_eq!(r, Vec2::new(250, 0));
}

#[test]
fn move_towards_arrives_when_in_reach() {
    let r = move_towards(Vec2::new(0, 0), Vec2::new(100, 100), 5_000, 1_000);
    assert_eq!(r, Vec2::new(100, 100));
    let stay = move_towards(Vec2::new(0, 0), Vec2::new(5, 5), 5_000, 1_000);
    assert_eq!(stay, Vec2::new(0, 0));
}

#[test]
fn avoidance_nudges_away_from_close_neighbour() {
    let r = avoid_collision(Vec2::new(0, 0), &vec![Vec2::new(500, 0)], MIN_DISTANCE);
    assert_eq!(r, Vec2::new(-500, 0));
    let far = avoid_collision(Vec2::new(0, 0), &vec![Vec2::new(5_000, 0)], MIN_DISTANCE);
    assert_eq!(far, Vec2::new(0, 0));
}

#[test]
fn ownership_goes_to_first_player_in_order() {
    let ball = Ball::new(10_000, 10_000);
    let ps = vec![player(4, 0, 30_000, 30_000), player(7, 1, 11_000, 10_000), player(2, 0, 10_000, 10_000)];
    assert_eq!(check_ball_ownership(&ball, &ps, POSSESSION_RANGE), Some(7));
    let none = vec![player(1, 0, 20_000, 20_000)];
    assert_eq!(check_ball_ownership(&ball, &none, POSSESSION_RANGE), None);
}

#[test]
fn ball_is_clamped_to_field_for_any_velocity() {
    let mut ball = Ball::new(60_000, 100_000);
    ball.velocity = Vec2::new(100_000_000, 100_000_000);
    update_ball(&mut ball, 100, 950);
    assert_eq!(ball.velocity, Vec2::new(90_500_000, 90_500_000));
    assert_eq!(ball.position, Vec2::new(FIELD_WIDTH, FIELD_HEIGHT));
    let mut back = Ball::new(1_000, 1_000);
    back.velocity = Vec2::new(-100_000_000, -3);
    update_ball(&mut back, 100, 950);
    assert_eq!(back.position.x, 0);
    assert!(back.position.y >= 0 && back.position.y <= FIELD_HEIGHT);
}

#[test]
fn ball_friction_slows_a_rolling_ball() {
    let mut ball = Ball::new(30_000, 30_000);
    ball.velocity = Vec2::new(10_000, 0);
    update_ball(&mut ball, 100, 950);
    assert_eq!(ball.velocity, Vec2::new(9_050, 0));
    assert_eq!(ball.position, Vec2::new(30_905, 30_000));
}

#[test]
fn kickoff_has_one_carrier_on_the_ball() {
    let w = GameWorld::new_5v5();
    assert_eq!(w.players.len(), 10);
    assert_eq!(carriers(&w), vec![0]);
    assert_eq!(w.ball.owner, Some(0));
    assert_eq!(w.ball.position, w.players[0].position);
    assert_eq!(w.home_players().len(), 5);
    assert_eq!(w.away_players().iter().map(|p| p.id).collect::<Vec<_>>(), vec![5, 6, 7, 8, 9]);
}

#[test]
fn ticks_keep_at_most_one_carrier_matching_owner() {
    let mut w = GameWorld::new_5v5();
    for _ in 0..50 {
        w.tick(100);
        let c = carriers(&w);
        assert!(c.len() <= 1);
        match w.ball.owner {
            Some(id) => assert_eq!(c, vec![id]),
            None => assert!(c.is_empty()),
        }
        assert!(w.ball.position.x >= 0 && w.ball.position.x <= FIELD_WIDTH);
        assert!(w.ball.position.y >= 0 && w.ball.position.y <= FIELD_HEIGHT);
    }
    assert_eq!(w.match_state.time_ms, 5_000);
}

#[test]
fn free_ball_is_clear_of_owner_and_clamped_after_tick() {
    let mut w = GameWorld::new_5v5();
    w.players[0].has_ball = false;
    w.ball.owner = None;
    w.ball.position = Vec2::new(67_000, 104_000);
    w.ball.velocity = Vec2::new(90_000_000, 90_000_000);
    w.tick(100);
    assert_eq!(w.ball.owner, None);
    assert!(carriers(&w).is_empty());
    assert_eq!(w.ball.position, Vec2::new(FIELD_WIDTH, FIELD_HEIGHT));
}

#[test]
fn two_players_converging_keep_minimum_distance() {
    let mut w = GameWorld::new_5v5();
    w.players = vec![player(0, 0, 30_000, 50_000), player(1, 1, 33_000, 50_000)];
    w.ball = Ball::new(5_000, 5_000);
    let target = Vec2::new(31_500, 60_000);
    w.update_intents(vec![
        Intent::new(0, IntentStatus::New, Some(Action::AttackSpace { target }), 0),
        Intent::new(1, IntentStatus::New, Some(Action::AttackSpace { target }), 0),
    ]);
    w.tick(100);
    let d = w.players[0].position.distance(&w.players[1].position);
    assert!(d as i64 >= MIN_DISTANCE);
    assert!(d < 3_000);
}

#[test]
fn intent_targets_resolve_per_action() {
    let w = GameWorld::new_5v5();
    let mk = |a: Option<Action>| Intent::new(3, IntentStatus::New, a, 0);
    let t = Vec2::new(1_000, 2_000);
    assert_eq!(w.get_target_from_intent(3, &mk(Some(Action::Press { target: t }))), Some(t));
    assert_eq!(w.get_target_from_intent(3, &mk(Some(Action::MoveToBall))), Some(w.ball.position));
    assert_eq!(w.get_target_from_intent(3, &mk(Some(Action::MarkPlayer { target_id: 6 }))), Some(w.players[6].position));
    assert_eq!(w.get_target_from_intent(3, &mk(Some(Action::MarkPlayer { target_id: 60 }))), None);
    assert_eq!(w.get_target_from_intent(3, &mk(Some(Action::HoldPosition))), Some(w.players[3].position));
    assert_eq!(w.get_target_from_intent(3, &mk(None)), None);
}

#[test]
fn player_without_intent_retreats_to_baseline_when_ball_is_owned() {
    let mut w = GameWorld::new_5v5();
    let before = w.players[9].position;
    w.tick(1_000);
    assert_eq!(before, Vec2::new(18_000, 25_000));
    assert_eq!(w.players[9].position, Vec2::new(20_500, 25_000));
    assert_eq!(w.players[1].position, Vec2::new(10_000, 20_000));
}
