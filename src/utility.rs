//! Utility scores for heuristic action selection: pass, shoot and press,
//! each in permille, and the choice of the best-scored action.
use vstd::prelude::*;
use crate::geometry::{Vec2, COORD_LIMIT, MILLI, dist_of, scale, scale_spec, lemma_div_le};
use crate::physics::{FIELD_WIDTH, FIELD_HEIGHT, min_int, clamp_int, MAX_NEIGHBOURS};
use crate::types::{Player, Persona, PERMILLE, is_permille};

verus! {

/// Discrete actions the heuristic chooses among.
#[derive(Debug, Clone, Copy, PartialEq, Eq, Structural)]
pub enum Action {
    Hold,
    PassSafe,
    PassRisk,
    Shoot,
    Press,
    ReturnPosition,
    Cover,
}

/// An action with its utility in permille.
#[derive(Debug, Clone, Copy, PartialEq, Eq, Structural)]
pub struct ActionScore {
    pub action: Action,
    pub utility: i64,
}

/// Beyond this distance a shot is worth nothing.
pub const MAX_SHOOT_DISTANCE: i64 = 20 * MILLI;
/// Beyond this distance pressing is worth nothing.
pub const MAX_PRESS_DISTANCE: i64 = 5 * MILLI;
/// Opponents this close to a pass line may cut it out.
pub const BLOCKING_DISTANCE: i64 = 2 * MILLI;
/// Risk each such opponent adds, in permille.
pub const BLOCKING_RISK_STEP: i64 = 300;
/// Opponents this close press the shooter.
pub const PRESSURE_DISTANCE: i64 = 5 * MILLI;
/// Squared segment lengths below this count as a point.
pub const DEGENERATE_SEGMENT_SQ: i64 = 10_000;

pub open spec fn wf_positions(ps: Seq<Player>) -> bool {
    forall|k: int| 0 <= k < ps.len() ==> (#[trigger] ps[k]).position.wf()
}

/// Fraction along `a -> b` of the point closest to `p`, in permille.
pub open spec fn segment_param(a: Vec2, b: Vec2, p: Vec2) -> int {
    let abx = b.x - a.x;
    let aby = b.y - a.y;
    let ab2 = abx * abx + aby * aby;
    let dot = (p.x - a.x) * abx + (p.y - a.y) * aby;
    if dot <= 0 { 0 } else if dot >= ab2 { 1000 } else { (dot * 1000) / ab2 }
}

/// Distance from `p` to the segment `a..b`, rounded down.
pub open spec fn segment_dist(a: Vec2, b: Vec2, p: Vec2) -> int {
    let abx = b.x - a.x;
    let aby = b.y - a.y;
    if abx * abx + aby * aby < DEGENERATE_SEGMENT_SQ {
        dist_of(a, p)
    } else {
        let t = segment_param(a, b, p);
        let c = Vec2 { x: (a.x + scale_spec(abx, t, 1000)) as i64, y: (a.y + scale_spec(aby, t, 1000)) as i64 };
        dist_of(c, p)
    }
}

proof fn lemma_partial_step(d: int, t: int)
    requires
        0 <= t <= 1000,
        -2 * COORD_LIMIT <= d <= 2 * COORD_LIMIT,
    ensures
        (d >= 0 ==> 0 <= scale_spec(d, t, 1000) <= d),
        (d < 0 ==> d <= scale_spec(d, t, 1000) <= 0),
{
    if d >= 0 {
        lemma_div_le(t, d, 1000);
        assert(t * d == d * t) by (nonlinear_arith);
    } else {
        lemma_div_le(t, -d, 1000);
        assert(t * (-d) == (-d) * t) by (nonlinear_arith);
    }
}

fn distance_to_line_segment(a: &Vec2, b: &Vec2, p: &Vec2) -> (r: u64)
    requires
        a.wf(),
        b.wf(),
        p.wf(),
    ensures
        r as int == segment_dist(*a, *b, *p),
{
    let abx = b.x - a.x;
    let aby = b.y - a.y;
    let apx = p.x - a.x;
    let apy = p.y - a.y;
    let ab2 = crate::geometry::square_sum(abx, aby) as i64;
    if ab2 < DEGENERATE_SEGMENT_SQ {
        return a.distance(p);
    }
    assert(-4 * COORD_LIMIT * COORD_LIMIT <= apx * abx <= 4 * COORD_LIMIT * COORD_LIMIT) by (nonlinear_arith)
        requires -2 * COORD_LIMIT <= apx <= 2 * COORD_LIMIT, -2 * COORD_LIMIT <= abx <= 2 * COORD_LIMIT;
    assert(-4 * COORD_LIMIT * COORD_LIMIT <= apy * aby <= 4 * COORD_LIMIT * COORD_LIMIT) by (nonlinear_arith)
        requires -2 * COORD_LIMIT <= apy <= 2 * COORD_LIMIT, -2 * COORD_LIMIT <= aby <= 2 * COORD_LIMIT;
    let dot: i64 = apx * abx + apy * aby;
    let t: i64 = if dot <= 0 {
        0
    } else if dot >= ab2 {
        1000
    } else {
        let q = ((dot as u128) * 1000u128) / (ab2 as u128);
        proof { lemma_div_le(dot as int, 1000, ab2 as int); }
        q as i64
    };
    proof {
        lemma_partial_step(abx as int, t as int);
        lemma_partial_step(aby as int, t as int);
    }
    let c = Vec2 { x: a.x + scale(abx, t, 1000), y: a.y + scale(aby, t, 1000) };
    c.distance(p)
}

/// Number of `opps` within `BLOCKING_DISTANCE` of the segment `a..b`.
pub open spec fn count_blockers(a: Vec2, b: Vec2, opps: Seq<Player>) -> int
    decreases opps.len(),
{
    if opps.len() == 0 {
        0
    } else {
        count_blockers(a, b, opps.drop_last())
            + if segment_dist(a, b, opps.last().position) < BLOCKING_DISTANCE { 1int } else { 0int }
    }
}

/// Risk that a pass along `a..b` is cut out, in permille.
pub open spec fn blocking_risk(a: Vec2, b: Vec2, opps: Seq<Player>) -> int {
    min_int(BLOCKING_RISK_STEP * count_blockers(a, b, opps), PERMILLE as int)
}

fn calculate_blocking_risk(from: &Vec2, to: &Vec2, opponents: &[Player]) -> (r: i64)
    requires
        from.wf(),
        to.wf(),
        wf_positions(opponents@),
        opponents@.len() <= MAX_NEIGHBOURS,
    ensures
        r == blocking_risk(*from, *to, opponents@),
        0 <= r <= PERMILLE,
{
    let mut risk: i64 = 0;
    let mut k: usize = 0;
    while k < opponents.len()
        invariant
            k <= opponents@.len(),
            opponents@.len() <= MAX_NEIGHBOURS,
            from.wf(),
            to.wf(),
            wf_positions(opponents@),
            risk == BLOCKING_RISK_STEP * count_blockers(*from, *to, opponents@.subrange(0, k as int)),
            0 <= count_blockers(*from, *to, opponents@.subrange(0, k as int)) <= k,
        decreases opponents@.len() - k,
    {
        proof {
            let pre = opponents@.subrange(0, k + 1);
            assert(pre.drop_last() == opponents@.subrange(0, k as int));
            assert(pre.last() == opponents@[k as int]);
        }
        let d = distance_to_line_segment(from, to, &opponents[k].position);
        if d < BLOCKING_DISTANCE as u64 {
            risk = risk + BLOCKING_RISK_STEP;
        }
        k = k + 1;
    }
    proof { assert(opponents@.subrange(0, opponents@.len() as int) == opponents@); }
    if risk < PERMILLE { risk } else { PERMILLE }
}

/// Progress toward `goal` made by moving `from -> to`, in permille of the
/// starting distance, clamped to `[0, 1000]`.
pub open spec fn forward_gain(from: Vec2, to: Vec2, goal: Vec2) -> int {
    let fd = dist_of(from, goal);
    let td = dist_of(to, goal);
    if fd > 0 && fd > td { clamp_int(((fd - td) * 1000) / fd, 0, 1000) } else { 0 }
}

fn calculate_forward_gain(from: &Vec2, to: &Vec2, goal: &Vec2) -> (r: i64)
    requires
        from.wf(),
        to.wf(),
        goal.wf(),
    ensures
        r == forward_gain(*from, *to, *goal),
        0 <= r <= 1000,
{
    let fd = from.distance(goal);
    let td = to.distance(goal);
    if fd > 0 && fd > td {
        proof { lemma_div_le((fd - td) as int, 1000, fd as int); }
        let g = (((fd - td) * 1000) / fd) as i64;
        if g < 0 { 0 } else if g > 1000 { 1000 } else { g }
    } else {
        0
    }
}

/// Pressure on a shooter at `pos`, in permille: each opponent closer than
/// `PRESSURE_DISTANCE` adds `0.3 * (1 - dist / PRESSURE_DISTANCE)`; capped at 1.
pub open spec fn pressure_sum(pos: Vec2, opps: Seq<Player>) -> int
    decreases opps.len(),
{
    if opps.len() == 0 {
        0
    } else {
        let d = dist_of(pos, opps.last().position);
        pressure_sum(pos, opps.drop_last())
            + if d < PRESSURE_DISTANCE { ((1000 - (d * 1000) / (PRESSURE_DISTANCE as int)) * 300) / 1000 } else { 0 }
    }
}

pub open spec fn defensive_pressure(pos: Vec2, opps: Seq<Player>) -> int {
    min_int(pressure_sum(pos, opps), PERMILLE as int)
}

fn calculate_defensive_pressure(position: &Vec2, opponents: &[Player]) -> (r: i64)
    requires
        position.wf(),
        wf_positions(opponents@),
        opponents@.len() <= MAX_NEIGHBOURS,
    ensures
        r == defensive_pressure(*position, opponents@),
        0 <= r <= PERMILLE,
{
    let mut pressure: i64 = 0;
    let mut k: usize = 0;
    while k < opponents.len()
        invariant
            k <= opponents@.len(),
            opponents@.len() <= MAX_NEIGHBOURS,
            position.wf(),
            wf_positions(opponents@),
            pressure == pressure_sum(*position, opponents@.subrange(0, k as int)),
            0 <= pressure <= 300 * k,
        decreases opponents@.len() - k,
    {
        proof {
            let pre = opponents@.subrange(0, k + 1);
            assert(pre.drop_last() == opponents@.subrange(0, k as int));
            assert(pre.last() == opponents@[k as int]);
        }
        let d = position.distance(&opponents[k].position);
        if d < PRESSURE_DISTANCE as u64 {
            proof { lemma_div_le(d as int, 1000, PRESSURE_DISTANCE as int); }
            let closeness: i64 = 1000 - (d as i64 * 1000) / PRESSURE_DISTANCE;
            proof { lemma_div_le(closeness as int, 300, 1000); }
            pressure = pressure + (closeness * 300) / 1000;
        }
        k = k + 1;
    }
    proof { assert(opponents@.subrange(0, opponents@.len() as int) == opponents@); }
    if pressure < PERMILLE { pressure } else { PERMILLE }
}

/// Linear decay `1 - dist / max` in permille; zero beyond `max`.
pub open spec fn decay(dist: int, max: int) -> int {
    if dist > max { 0 } else { 1000 - (dist * 1000) / max }
}

/// The attacking goal's centre.
pub open spec fn goal_point() -> Vec2 {
    Vec2 { x: 34_000, y: FIELD_HEIGHT }
}

pub open spec fn pass_utility_spec(from: Vec2, target: Vec2, opps: Seq<Player>, persona: Persona) -> int {
    let d = dist_of(from, target);
    let vision = persona.vision_range as int;
    let risk = if d * 10 > vision * 7 { persona.risk_appetite as int } else { 1000 - persona.risk_appetite };
    let clear = 1000 - blocking_risk(from, target, opps);
    let bonus = 700 + (300 * forward_gain(from, target, goal_point())) / 1000;
    (decay(d, vision) * risk * clear * bonus) / 1_000_000_000
}

pub open spec fn shoot_utility_spec(from: Vec2, goal: Vec2, opps: Seq<Player>, persona: Persona) -> int {
    let d = dist_of(from, goal);
    if d > MAX_SHOOT_DISTANCE {
        0
    } else {
        (decay(d, MAX_SHOOT_DISTANCE as int) * persona.confidence * (1000 - defensive_pressure(from, opps))) / 1_000_000
    }
}

pub open spec fn press_utility_spec(from: Vec2, target: Vec2, persona: Persona, stamina: int) -> int {
    let d = dist_of(from, target);
    if d > MAX_PRESS_DISTANCE {
        0
    } else {
        (decay(d, MAX_PRESS_DISTANCE as int) * persona.pressing_intensity * stamina) / 1_000_000
    }
}

fn decay_score(dist: u64, max: i64) -> (r: i64)
    requires
        0 < max <= COORD_LIMIT,
        dist <= 3 * COORD_LIMIT,
    ensures
        r == decay(dist as int, max as int),
        0 <= r <= 1000,
{
    if dist > max as u64 {
        0
    } else {
        proof { lemma_div_le(dist as int, 1000, max as int); }
        1000 - (dist as i64 * 1000) / max
    }
}

proof fn lemma_product_bound(a: int, b: int, c: int, e: int)
    requires
        0 <= a <= 1000,
        0 <= b <= 1000,
        0 <= c <= 1000,
        0 <= e <= 1000,
    ensures
        0 <= a * b <= 1_000_000,
        0 <= a * b * c <= 1_000_000_000,
        0 <= a * b * c * e <= 1_000_000_000_000,
{
    assert(0 <= a * b <= 1_000_000) by (nonlinear_arith)
        requires 0 <= a <= 1000, 0 <= b <= 1000;
    assert(0 <= a * b * c <= 1_000_000_000) by (nonlinear_arith)
        requires 0 <= a * b <= 1_000_000, 0 <= c <= 1000;
    assert(0 <= a * b * c * e <= 1_000_000_000_000) by (nonlinear_arith)
        requires 0 <= a * b * c <= 1_000_000_000, 0 <= e <= 1000;
}

/// Utility of a pass from the player's position to `target`, in permille.
pub fn pass_utility(player: &Player, target: &Vec2, _teammates: &[Player], opponents: &[Player], persona: &Persona) -> (r: i64)
    requires
        player.position.wf(),
        target.wf(),
        persona.wf(),
        wf_positions(opponents@),
        opponents@.len() <= MAX_NEIGHBOURS,
    ensures
        r == pass_utility_spec(player.position, *target, opponents@, *persona),
        0 <= r <= 1000,
        dist_of(player.position, *target) > persona.vision_range ==> r == 0,
{
    let distance = player.position.distance(target);
    let vision = persona.vision_range;
    let distance_score = decay_score(distance, vision);
    assert(distance * 10 <= 30 * COORD_LIMIT && vision * 7 <= 7 * COORD_LIMIT);
    let risk_factor: i64 = if distance * 10 > (vision * 7) as u64 { persona.risk_appetite } else { 1000 - persona.risk_appetite };
    let blocking = calculate_blocking_risk(&player.position, target, opponents);
    let goal = Vec2 { x: FIELD_WIDTH / 2, y: FIELD_HEIGHT };
    assert(goal == goal_point());
    let gain = calculate_forward_gain(&player.position, target, &goal);
    proof { lemma_div_le(gain as int, 300, 1000); }
    let bonus: i64 = 700 + (300 * gain) / 1000;
    let clear: i64 = 1000 - blocking;
    proof {
        lemma_product_bound(distance_score as int, risk_factor as int, clear as int, bonus as int);
        assert(300 * gain == gain * 300) by (nonlinear_arith);
        lemma_div_le(distance_score as int * risk_factor * clear, bonus as int, 1_000_000_000);
        assert(distance_score as int * risk_factor * clear * bonus == bonus * (distance_score as int * risk_factor * clear)) by (nonlinear_arith);
        if distance_score == 0 {
            assert(distance_score as int * risk_factor * clear * bonus == 0) by (nonlinear_arith)
                requires distance_score == 0;
        }
    }
    (distance_score * risk_factor * clear * bonus) / 1_000_000_000
}

/// Utility of a shot at `goal_position`, in permille.
pub fn shoot_utility(player: &Player, goal_position: &Vec2, opponents: &[Player], persona: &Persona) -> (r: i64)
    requires
        player.position.wf(),
        goal_position.wf(),
        persona.wf(),
        wf_positions(opponents@),
        opponents@.len() <= MAX_NEIGHBOURS,
    ensures
        r == shoot_utility_spec(player.position, *goal_position, opponents@, *persona),
        0 <= r <= 1000,
        dist_of(player.position, *goal_position) > MAX_SHOOT_DISTANCE ==> r == 0,
{
    let distance = player.position.distance(goal_position);
    if distance > MAX_SHOOT_DISTANCE as u64 {
        return 0;
    }
    let distance_score = decay_score(distance, MAX_SHOOT_DISTANCE);
    let pressure = calculate_defensive_pressure(&player.position, opponents);
    let calm: i64 = 1000 - pressure;
    proof {
        lemma_product_bound(distance_score as int, persona.confidence as int, calm as int, 1000);
        lemma_div_le(distance_score as int * persona.confidence, calm as int, 1_000_000);
        assert(distance_score as int * persona.confidence * calm == calm * (distance_score as int * persona.confidence)) by (nonlinear_arith);
    }
    (distance_score * persona.confidence * calm) / 1_000_000
}

/// Utility of pressing toward `target`, in permille.
pub fn press_utility(player: &Player, target: &Vec2, _opponents: &[Player], persona: &Persona, stamina: i64) -> (r: i64)
    requires
        player.position.wf(),
        target.wf(),
        persona.wf(),
        is_permille(stamina),
    ensures
        r == press_utility_spec(player.position, *target, *persona, stamina as int),
        0 <= r <= 1000,
        dist_of(player.position, *target) > MAX_PRESS_DISTANCE ==> r == 0,
{
    let distance = player.position.distance(target);
    if distance > MAX_PRESS_DISTANCE as u64 {
        return 0;
    }
    let distance_score = decay_score(distance, MAX_PRESS_DISTANCE);
    proof {
        lemma_product_bound(distance_score as int, persona.pressing_intensity as int, stamina as int, 1000);
        lemma_div_le(distance_score as int * persona.pressing_intensity, stamina as int, 1_000_000);
        assert(distance_score as int * persona.pressing_intensity * stamina == stamina * (distance_score as int * persona.pressing_intensity)) by (nonlinear_arith);
    }
    (distance_score * persona.pressing_intensity * stamina) / 1_000_000
}

/// Index of the best score: the largest utility, the later one on a tie.
pub open spec fn best_index(s: Seq<ActionScore>) -> Option<int>
    decreases s.len(),
{
    if s.len() == 0 {
        None
    } else {
        match best_index(s.drop_last()) {
            None => Some(s.len() - 1),
            Some(k) => if s.last().utility >= s[k].utility { Some(s.len() - 1) } else { Some(k) },
        }
    }
}

pub proof fn lemma_best_index(s: Seq<ActionScore>)
    ensures
        match best_index(s) {
            Some(k) => 0 <= k < s.len()
                && (forall|j: int| 0 <= j < s.len() ==> #[trigger] s[j].utility <= s[k].utility)
                && (forall|j: int| k < j < s.len() ==> #[trigger] s[j].utility < s[k].utility),
            None => s.len() == 0,
        },
    decreases s.len(),
{
    if s.len() > 0 {
        lemma_best_index(s.drop_last());
        assert forall|j: int| 0 <= j < s.len() - 1 implies #[trigger] s[j] == s.drop_last()[j] by {}
    }
}

/// The action with the highest utility (the later one on a tie); `None` for
/// no candidates.
pub fn select_best_action(scores: &[ActionScore]) -> (r: Option<Action>)
    ensures
        r == match best_index(scores@) {
            Some(k) => Some(scores@[k].action),
            None => None::<Action>,
        },
        r is None <==> scores@.len() == 0,
{
    proof { lemma_best_index(scores@); }
    let mut best: usize = 0;
    let mut k: usize = 0;
    while k < scores.len()
        invariant
            k <= scores@.len(),
            k == 0 ==> best == 0,
            k > 0 ==> best_index(scores@.subrange(0, k as int)) == Some(best as int),
            k > 0 ==> best < k,
        decreases scores@.len() - k,
    {
        proof {
            let pre = scores@.subrange(0, k + 1);
            assert(pre.drop_last() == scores@.subrange(0, k as int));
            assert(pre.last() == scores@[k as int]);
            if k > 0 {
                assert(pre[best as int] == scores@[best as int]);
            }
        }
        if k == 0 || scores[k].utility >= scores[best].utility {
            best = k;
        }
        k = k + 1;
    }
    proof { assert(scores@.subrange(0, scores@.len() as int) == scores@); }
    if scores.len() == 0 {
        None
    } else {
        Some(scores[best].action)
    }
}

} // verus!
