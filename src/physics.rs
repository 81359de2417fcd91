//! Per-tick kinematics: movement toward targets, soft collision avoidance,
//! possession checks and free-ball motion.
use vstd::prelude::*;
use crate::geometry::{Vec2, normalize_spec, COORD_LIMIT, MILLI, len_of, dist_of, scale, scale_spec, lemma_div_le, lemma_component_le_len};
use crate::types::{Ball, Player, PERMILLE};

verus! {

pub const FIELD_WIDTH: i64 = 68_000;
pub const FIELD_HEIGHT: i64 = 105_000;
pub const PLAYER_RADIUS: i64 = 500;
pub const BALL_RADIUS: i64 = 110;
/// Minimum separation the avoidance pass tries to keep.
pub const MIN_DISTANCE: i64 = 1_000;
/// Distances below this count as "already there".
pub const ARRIVAL_EPSILON: i64 = 10;
/// Size of one avoidance nudge.
pub const AVOID_STEP: i64 = 500;
/// Longest tick the integrator accepts, in milliseconds.
pub const MAX_DELTA_MS: u64 = 3_600_000;
/// Largest speed, in milli-units per second.
pub const MAX_SPEED: i64 = 1_000_000;

pub open spec fn min_int(a: int, b: int) -> int {
    if a <= b { a } else { b }
}

pub open spec fn clamp_int(v: int, lo: int, hi: int) -> int {
    if v < lo { lo } else if v > hi { hi } else { v }
}

pub open spec fn diff(a: Vec2, b: Vec2) -> Vec2 {
    Vec2 { x: (a.x - b.x) as i64, y: (a.y - b.y) as i64 }
}

/// Where a step of at most `step` from `p` toward `t` ends.
pub open spec fn move_spec(p: Vec2, t: Vec2, step: int) -> Vec2 {
    let d = diff(t, p);
    let dist = len_of(d);
    if dist < ARRIVAL_EPSILON {
        p
    } else {
        let m = min_int(step, dist);
        Vec2 { x: (p.x + scale_spec(d.x as int, m, dist)) as i64, y: (p.y + scale_spec(d.y as int, m, dist)) as i64 }
    }
}

/// `v` lies between `a` and `b`.
pub open spec fn between(v: int, a: int, b: int) -> bool {
    (a <= v <= b) || (b <= v <= a)
}

proof fn lemma_scale_part(d: int, m: int, dist: int)
    requires
        dist > 0,
        0 <= m <= dist,
        -dist <= d <= dist,
    ensures
        between(scale_spec(d, m, dist), 0, d),
        m == dist ==> scale_spec(d, m, dist) == d,
{
    if d >= 0 {
        lemma_div_le(m, d, dist);
        assert(m * d == d * m) by (nonlinear_arith);
        if m == dist {
            vstd::arithmetic::div_mod::lemma_div_by_multiple(d, dist);
            assert(d * dist == dist * d) by (nonlinear_arith);
        }
    } else {
        lemma_div_le(m, -d, dist);
        assert(m * (-d) == (-d) * m) by (nonlinear_arith);
        if m == dist {
            vstd::arithmetic::div_mod::lemma_div_by_multiple(-d, dist);
            assert((-d) * dist == dist * (-d)) by (nonlinear_arith);
        }
    }
}

/// Advances `position` toward `target` by at most `max_speed * delta_ms / 1000`
/// milli-units along the straight line; arrives exactly when the target is
/// within reach, and stays put when already within `ARRIVAL_EPSILON`.
pub fn move_towards(position: Vec2, target: Vec2, max_speed: i64, delta_ms: u64) -> (r: Vec2)
    requires
        position.wf(),
        target.wf(),
        0 <= max_speed <= MAX_SPEED,
        delta_ms <= MAX_DELTA_MS,
    ensures
        r == move_spec(position, target, (max_speed * delta_ms) / 1000),
        r.wf(),
        between(r.x as int, position.x as int, target.x as int),
        between(r.y as int, position.y as int, target.y as int),
        len_of(diff(target, position)) >= ARRIVAL_EPSILON
            && len_of(diff(target, position)) <= (max_speed * delta_ms) / 1000 ==> r == target,
{
    let direction = Vec2 { x: target.x - position.x, y: target.y - position.y };
    let distance = direction.length();
    if distance < ARRIVAL_EPSILON as u64 {
        return position;
    }
    assert(max_speed * delta_ms <= MAX_SPEED * MAX_DELTA_MS) by (nonlinear_arith)
        requires 0 <= max_speed <= MAX_SPEED, delta_ms <= MAX_DELTA_MS;
    assert(0 <= max_speed * delta_ms) by (nonlinear_arith)
        requires 0 <= max_speed, 0 <= delta_ms;
    let reach: i64 = (max_speed * delta_ms as i64) / 1000;
    let step: i64 = if reach < distance as i64 { reach } else { distance as i64 };
    proof {
        lemma_component_le_len(direction.x as int, direction.y as int, distance as int);
        lemma_scale_part(direction.x as int, step as int, distance as int);
        lemma_scale_part(direction.y as int, step as int, distance as int);
    }
    let r = Vec2 {
        x: position.x + scale(direction.x, step, distance as i64),
        y: position.y + scale(direction.y, step, distance as i64),
    };
    r
}

/// Push away from `o` felt at `p`: along the unit direction from `o` to `p`,
/// with strength `1 - dist / min_d` (permille), when `o` is closer than
/// `min_d` but not on top of `p`.
pub open spec fn push_from(p: Vec2, o: Vec2, min_d: int) -> Option<Vec2> {
    let d = dist_of(p, o);
    if d < min_d && d > ARRIVAL_EPSILON {
        let n = normalize_spec(diff(p, o));
        let s = PERMILLE - (d * PERMILLE) / min_d;
        Some(Vec2 { x: scale_spec(n.x as int, s, PERMILLE as int) as i64, y: scale_spec(n.y as int, s, PERMILLE as int) as i64 })
    } else {
        None
    }
}

/// Summed pushes from `others`, with the number of neighbours that pushed.
pub open spec fn push_total(p: Vec2, others: Seq<Vec2>, min_d: int) -> (int, int, int)
    decreases others.len(),
{
    if others.len() == 0 {
        (0, 0, 0)
    } else {
        let (x, y, c) = push_total(p, others.drop_last(), min_d);
        match push_from(p, others.last(), min_d) {
            Some(v) => (x + v.x, y + v.y, c + 1),
            None => (x, y, c),
        }
    }
}

/// Position after one avoidance pass: a nudge of `AVOID_STEP` along the
/// direction of the averaged push, or no change when nothing pushes.
pub open spec fn avoid_spec(p: Vec2, others: Seq<Vec2>, min_d: int) -> Vec2 {
    let (x, y, c) = push_total(p, others, min_d);
    if c > 0 {
        let n = normalize_spec(Vec2 { x: x as i64, y: y as i64 });
        Vec2 {
            x: (p.x + scale_spec(n.x as int, AVOID_STEP as int, MILLI as int)) as i64,
            y: (p.y + scale_spec(n.y as int, AVOID_STEP as int, MILLI as int)) as i64,
        }
    } else {
        p
    }
}

/// Largest number of neighbours one avoidance pass considers.
pub const MAX_NEIGHBOURS: usize = 100_000;

/// Soft collision avoidance for one agent at `position` against `others`.
pub fn avoid_collision(position: Vec2, other_positions: &Vec<Vec2>, min_distance: i64) -> (r: Vec2)
    requires
        position.wf(),
        forall|k: int| 0 <= k < other_positions@.len() ==> (#[trigger] other_positions@[k]).wf(),
        other_positions@.len() <= MAX_NEIGHBOURS,
        0 < min_distance <= COORD_LIMIT,
    ensures
        r == avoid_spec(position, other_positions@, min_distance as int),
        position.x - AVOID_STEP <= r.x <= position.x + AVOID_STEP,
        position.y - AVOID_STEP <= r.y <= position.y + AVOID_STEP,
        push_total(position, other_positions@, min_distance as int).2 == 0 ==> r == position,
{
    let ghost others = other_positions@;
    let mut tx: i64 = 0;
    let mut ty: i64 = 0;
    let mut count: u64 = 0;
    let mut k: usize = 0;
    while k < other_positions.len()
        invariant
            others == other_positions@,
            position.wf(),
            forall|j: int| 0 <= j < others.len() ==> (#[trigger] others[j]).wf(),
            others.len() <= MAX_NEIGHBOURS,
            0 < min_distance <= COORD_LIMIT,
            k <= others.len(),
            push_total(position, others.subrange(0, k as int), min_distance as int) == (tx as int, ty as int, count as int),
            -1000 * (k as int) <= tx as int <= 1000 * (k as int),
            -1000 * (k as int) <= ty as int <= 1000 * (k as int),
            count <= k,
        decreases others.len() - k,
    {
        let other = other_positions[k];
        proof {
            let pre = others.subrange(0, k + 1);
            assert(pre.drop_last() == others.subrange(0, k as int));
            assert(pre.last() == other);
        }
        let d = position.distance(&other);
        if d < min_distance as u64 && d > ARRIVAL_EPSILON as u64 {
            let away = Vec2 { x: position.x - other.x, y: position.y - other.y };
            let n = away.normalize();
            assert(d * PERMILLE <= 3 * COORD_LIMIT * PERMILLE) by (nonlinear_arith)
                requires d <= 3 * COORD_LIMIT;
            proof {
                lemma_div_le(d as int, PERMILLE as int, min_distance as int);
            }
            let strength: i64 = PERMILLE - (d as i64 * PERMILLE) / min_distance;
            proof {
                if n.x >= 0 { lemma_div_le(n.x as int, strength as int, PERMILLE as int); } else { lemma_div_le(-n.x, strength as int, PERMILLE as int); }
                if n.y >= 0 { lemma_div_le(n.y as int, strength as int, PERMILLE as int); } else { lemma_div_le(-n.y, strength as int, PERMILLE as int); }
                assert(n.x * strength == strength * n.x) by (nonlinear_arith);
                assert(n.y * strength == strength * n.y) by (nonlinear_arith);
                assert((-n.x) * strength == strength * (-n.x)) by (nonlinear_arith);
                assert((-n.y) * strength == strength * (-n.y)) by (nonlinear_arith);
            }
            let px = scale(n.x, strength, PERMILLE);
            let py = scale(n.y, strength, PERMILLE);
            assert(0 <= strength <= PERMILLE);
            assert(-PERMILLE <= px <= PERMILLE);
            assert(-PERMILLE <= py <= PERMILLE);
            assert(1000 * (k as int) <= 1000 * 100_000) by (nonlinear_arith)
                requires k <= MAX_NEIGHBOURS;
            tx = tx + px;
            ty = ty + py;
            count = count + 1;
        }
        k = k + 1;
    }
    proof {
        assert(others.subrange(0, others.len() as int) == others);
        assert(1000 * (k as int) <= 1000 * 100_000) by (nonlinear_arith)
            requires k <= MAX_NEIGHBOURS;
    }
    if count > 0 {
        let total = Vec2 { x: tx, y: ty };
        let n = total.normalize();
        proof {
            if n.x >= 0 { lemma_div_le(n.x as int, AVOID_STEP as int, MILLI as int); } else { lemma_div_le(-n.x, AVOID_STEP as int, MILLI as int); }
            if n.y >= 0 { lemma_div_le(n.y as int, AVOID_STEP as int, MILLI as int); } else { lemma_div_le(-n.y, AVOID_STEP as int, MILLI as int); }
            assert(n.x * AVOID_STEP == AVOID_STEP * n.x) by (nonlinear_arith);
            assert(n.y * AVOID_STEP == AVOID_STEP * n.y) by (nonlinear_arith);
            assert((-n.x) * AVOID_STEP == AVOID_STEP * (-n.x)) by (nonlinear_arith);
            assert((-n.y) * AVOID_STEP == AVOID_STEP * (-n.y)) by (nonlinear_arith);
        }
        Vec2 { x: position.x + scale(n.x, AVOID_STEP, MILLI), y: position.y + scale(n.y, AVOID_STEP, MILLI) }
    } else {
        position
    }
}

/// Index of the first player (in order) closer than `range` to `at`.
pub open spec fn first_in_range(at: Vec2, ps: Seq<Player>, range: int) -> Option<int>
    decreases ps.len(),
{
    if ps.len() == 0 {
        None
    } else {
        match first_in_range(at, ps.drop_last(), range) {
            Some(k) => Some(k),
            None => if dist_of(at, ps.last().position) < range { Some(ps.len() - 1) } else { None },
        }
    }
}

pub proof fn lemma_first_in_range(at: Vec2, ps: Seq<Player>, range: int)
    ensures
        match first_in_range(at, ps, range) {
            Some(k) => 0 <= k < ps.len() && dist_of(at, ps[k].position) < range
                && forall|j: int| 0 <= j < k ==> dist_of(at, #[trigger] ps[j].position) >= range,
            None => forall|j: int| 0 <= j < ps.len() ==> dist_of(at, #[trigger] ps[j].position) >= range,
        },
    decreases ps.len(),
{
    if ps.len() > 0 {
        lemma_first_in_range(at, ps.drop_last(), range);
        assert forall|j: int| 0 <= j < ps.len() - 1 implies #[trigger] ps[j] == ps.drop_last()[j] by {}
    }
}

/// The id of the first player, in order, within `possession_range` of the ball.
pub fn check_ball_ownership(ball: &Ball, players: &Vec<Player>, possession_range: i64) -> (r: Option<u32>)
    requires
        ball.position.wf(),
        forall|k: int| 0 <= k < players@.len() ==> (#[trigger] players@[k]).position.wf(),
    ensures
        r == match first_in_range(ball.position, players@, possession_range as int) {
            Some(k) => Some(players@[k].id),
            None => None::<u32>,
        },
{
    let mut k: usize = 0;
    while k < players.len()
        invariant
            k <= players@.len(),
            ball.position.wf(),
            forall|j: int| 0 <= j < players@.len() ==> (#[trigger] players@[j]).position.wf(),
            first_in_range(ball.position, players@.subrange(0, k as int), possession_range as int) is None,
        decreases players@.len() - k,
    {
        let pre = Ghost(players@.subrange(0, k + 1));
        proof {
            assert(pre@.drop_last() == players@.subrange(0, k as int));
            assert(pre@.last() == players@[k as int]);
        }
        let d = ball.position.distance(&players[k].position);
        if possession_range > 0 && d < possession_range as u64 {
            proof { lemma_first_in_range_prefix(ball.position, players@, possession_range as int, k + 1); }
            return Some(players[k].id);
        }
        k = k + 1;
    }
    proof { assert(players@.subrange(0, players@.len() as int) == players@); }
    None
}

/// A hit found in a prefix is the hit of the whole sequence.
proof fn lemma_first_in_range_prefix(at: Vec2, ps: Seq<Player>, range: int, n: int)
    requires
        0 <= n <= ps.len(),
        first_in_range(at, ps.subrange(0, n), range) is Some,
    ensures
        first_in_range(at, ps, range) == first_in_range(at, ps.subrange(0, n), range),
    decreases ps.len() - n,
{
    if n < ps.len() {
        let q = ps.subrange(0, n + 1);
        assert(q.drop_last() == ps.subrange(0, n));
        lemma_first_in_range_prefix(at, ps, range, n + 1);
    } else {
        assert(ps.subrange(0, n) == ps);
    }
}

/// Velocity decay factor in permille: `1 - friction * dt`. Where
/// `friction * dt` exceeds one the factor is zero, so the ball stops: a
/// negative factor would reverse and, over long steps, grow the velocity,
/// which the fixed-point range cannot hold.
pub open spec fn decay_factor(friction: int, delta_ms: int) -> int {
    let loss = (friction * delta_ms) / 1000;
    if loss >= PERMILLE { 0 } else { PERMILLE - loss }
}

/// The free ball after one step: velocity decays, position integrates,
/// and is then clamped to the field.
pub open spec fn ball_step(b: Ball, delta_ms: int, friction: int) -> Ball {
    let f = decay_factor(friction, delta_ms);
    let vx = scale_spec(b.velocity.x as int, f, PERMILLE as int);
    let vy = scale_spec(b.velocity.y as int, f, PERMILLE as int);
    let px = b.position.x + scale_spec(vx, delta_ms, 1000);
    let py = b.position.y + scale_spec(vy, delta_ms, 1000);
    Ball {
        position: Vec2 { x: clamp_int(px, 0, FIELD_WIDTH as int) as i64, y: clamp_int(py, 0, FIELD_HEIGHT as int) as i64 },
        velocity: Vec2 { x: vx as i64, y: vy as i64 },
        owner: b.owner,
    }
}

pub open spec fn in_field(p: Vec2) -> bool {
    0 <= p.x <= FIELD_WIDTH && 0 <= p.y <= FIELD_HEIGHT
}

/// Advances a free ball by `delta_ms` with `friction` (permille per second).
pub fn update_ball(ball: &mut Ball, delta_ms: u64, friction: i64)
    requires
        old(ball).wf(),
        delta_ms <= MAX_DELTA_MS,
        0 <= friction <= MAX_SPEED,
    ensures
        *final(ball) == ball_step(*old(ball), delta_ms as int, friction as int),
        in_field(final(ball).position),
        final(ball).wf(),
{
    assert(0 <= friction * delta_ms <= MAX_SPEED * MAX_DELTA_MS) by (nonlinear_arith)
        requires 0 <= friction <= MAX_SPEED, delta_ms <= MAX_DELTA_MS;
    let loss: i64 = (friction * delta_ms as i64) / 1000;
    let factor: i64 = if loss >= PERMILLE { 0 } else { PERMILLE - loss };
    let v = ball.velocity;
    proof {
        if v.x >= 0 { lemma_div_le(factor as int, v.x as int, PERMILLE as int); } else { lemma_div_le(factor as int, -v.x, PERMILLE as int); }
        if v.y >= 0 { lemma_div_le(factor as int, v.y as int, PERMILLE as int); } else { lemma_div_le(factor as int, -v.y, PERMILLE as int); }
        assert(v.x * factor == factor * v.x) by (nonlinear_arith);
        assert(v.y * factor == factor * v.y) by (nonlinear_arith);
        assert((-v.x) * factor == factor * (-v.x)) by (nonlinear_arith);
        assert((-v.y) * factor == factor * (-v.y)) by (nonlinear_arith);
    }
    let vx = scale(v.x, factor, PERMILLE);
    let vy = scale(v.y, factor, PERMILLE);
    assert(-COORD_LIMIT <= vx <= COORD_LIMIT);
    assert(-COORD_LIMIT <= vy <= COORD_LIMIT);
    let dx = scale(vx, delta_ms as i64, 1000);
    let dy = scale(vy, delta_ms as i64, 1000);
    proof {
        if vx >= 0 {
            assert(0 <= vx * delta_ms <= COORD_LIMIT * MAX_DELTA_MS) by (nonlinear_arith)
                requires 0 <= vx <= COORD_LIMIT, delta_ms <= MAX_DELTA_MS;
        } else {
            assert(0 <= (-vx) * delta_ms <= COORD_LIMIT * MAX_DELTA_MS) by (nonlinear_arith)
                requires 0 < -vx <= COORD_LIMIT, delta_ms <= MAX_DELTA_MS;
        }
        if vy >= 0 {
            assert(0 <= vy * delta_ms <= COORD_LIMIT * MAX_DELTA_MS) by (nonlinear_arith)
                requires 0 <= vy <= COORD_LIMIT, delta_ms <= MAX_DELTA_MS;
        } else {
            assert(0 <= (-vy) * delta_ms <= COORD_LIMIT * MAX_DELTA_MS) by (nonlinear_arith)
                requires 0 < -vy <= COORD_LIMIT, delta_ms <= MAX_DELTA_MS;
        }
    }
    let px = ball.position.x + dx;
    let py = ball.position.y + dy;
    let cx = if px < 0 { 0 } else if px > FIELD_WIDTH { FIELD_WIDTH } else { px };
    let cy = if py < 0 { 0 } else if py > FIELD_HEIGHT { FIELD_HEIGHT } else { py };
    ball.velocity = Vec2 { x: vx, y: vy };
    ball.position = Vec2 { x: cx, y: cy };
}

} // verus!
