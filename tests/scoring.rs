use eleven_fc::geometry::Vec2;
use eleven_fc::types::{Persona, Player};
use eleven_fc::utility::{pass_utility, press_utility, select_best_action, shoot_utility, Action, ActionScore};

fn at(id: u32, x: i64, y: i64) -> Player {
    Player {
        id,
        team_id: 0,
        role: "Player".to_string(),
        position: Vec2::new(x, y),
        stamina: 1000,
        morale: 700,
        has_ball: false,
        persona: Persona::default(),
    }
}

#[test]
fn pass_utility_exact_value() {
    let p = at(0, 10_000, 10_000);
    let u = pass_utility(&p, &Vec2::new(10_000, 15_000), &[], &[], &Persona::default());
    assert_eq!(u, 238);
}

#[test]
fn pass_utility_discounts_blocking_opponent() {
    let p = at(0, 10_000, 10_000);
    let opp = at(9, 10_500, 12_500);
    let u = pass_utility(&p, &Vec2::new(10_000, 15_000), &[], &[opp], &Persona::default());
    assert_eq!(u, 166);
}

#[test]
fn pass_beyond_vision_is_worthless() {
    let p = at(0, 0, 0);
    let persona = Persona::default();
    assert_eq!(pass_utility(&p, &Vec2::new(15_001, 0), &[], &[], &persona), 0);
    assert!(pass_utility(&p, &Vec2::new(14_000, 0), &[], &[], &persona) >= 0);
}

#[test]
fn long_pass_uses_risk_appetite() {
    let p = at(0, 10_000, 10_000);
    let mut bold = Persona::default();
    bold.risk_appetite = 1000;
    let mut careful = Persona::default();
    careful.risk_appetite = 0;
    let long = Vec2::new(10_000, 22_000);
    assert!(pass_utility(&p, &long, &[], &[], &bold) > 0);
    assert_eq!(pass_utility(&p, &long, &[], &[], &careful), 0);
    let short = Vec2::new(10_000, 12_000);
    assert_eq!(pass_utility(&p, &short, &[], &[], &bold), 0);
}

#[test]
fn shoot_utility_exact_and_under_pressure() {
    let p = at(0, 34_000, 95_000);
    let goal = Vec2::new(34_000, 105_000);
    assert_eq!(shoot_utility(&p, &goal, &[], &Persona::default()), 250);
    let opp = at(9, 34_000, 97_000);
    assert_eq!(shoot_utility(&p, &goal, &[opp], &Persona::default()), 205);
}

#[test]
fn shot_beyond_twenty_units_is_worthless() {
    let p = at(0, 34_000, 84_999);
    assert_eq!(shoot_utility(&p, &Vec2::new(34_000, 105_000), &[], &Persona::default()), 0);
}

#[test]
fn press_utility_exact_and_cutoff() {
    let p = at(0, 0, 0);
    assert_eq!(press_utility(&p, &Vec2::new(0, 0), &[], &Persona::default(), 1000), 500);
    assert_eq!(press_utility(&p, &Vec2::new(2_500, 0), &[], &Persona::default(), 800), 200);
    assert_eq!(press_utility(&p, &Vec2::new(5_001, 0), &[], &Persona::default(), 1000), 0);
}

#[test]
fn best_action_is_maximum_with_later_tie() {
    let s = [
        ActionScore { action: Action::Hold, utility: 300 },
        ActionScore { action: Action::Shoot, utility: 700 },
        ActionScore { action: Action::Press, utility: 700 },
        ActionScore { action: Action::Cover, utility: 100 },
    ];
    assert_eq!(select_best_action(&s), Some(Action::Press));
    assert_eq!(select_best_action(&s[..2]), Some(Action::Shoot));
    assert_eq!(select_best_action(&[]), None);
}
