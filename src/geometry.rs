//! Fixed-point 2D vectors: distances, lengths and unit directions.
use vstd::prelude::*;

verus! {

/// Steps per field unit.
pub const MILLI: i64 = 1000;

/// Largest coordinate magnitude a well-formed vector may hold.
pub const COORD_LIMIT: i64 = 100_000_000;

/// A point or displacement in milli-units.
#[derive(Debug, Clone, Copy, PartialEq, Eq, Structural)]
pub struct Vec2 {
    pub x: i64,
    pub y: i64,
}

/// Floor of the square root.
pub open spec fn is_isqrt(n: nat, r: nat) -> bool {
    r * r <= n && n < (r + 1) * (r + 1)
}

pub open spec fn in_coord_range(c: int) -> bool {
    -COORD_LIMIT <= c <= COORD_LIMIT
}

/// Largest squared length between two well-formed points.
pub open spec fn max_sq() -> int {
    8 * COORD_LIMIT * COORD_LIMIT
}

impl Vec2 {
    pub open spec fn wf(self) -> bool {
        in_coord_range(self.x as int) && in_coord_range(self.y as int)
    }

    /// A difference of two well-formed points, or anything as small.
    pub open spec fn is_displacement(self) -> bool {
        -2 * COORD_LIMIT <= self.x <= 2 * COORD_LIMIT && -2 * COORD_LIMIT <= self.y <= 2 * COORD_LIMIT
    }

    pub open spec fn sq_len_spec(self) -> int {
        self.x * self.x + self.y * self.y
    }

    pub open spec fn sq_dist_spec(self, o: Vec2) -> int {
        (self.x - o.x) * (self.x - o.x) + (self.y - o.y) * (self.y - o.y)
    }

    pub fn new(x: i64, y: i64) -> (r: Vec2)
        ensures
            r.x == x && r.y == y,
    {
        Vec2 { x, y }
    }

    /// Euclidean distance, rounded down to a whole milli-unit.
    pub fn distance(&self, other: &Vec2) -> (r: u64)
        requires
            self.wf(),
            other.wf(),
        ensures
            is_isqrt(self.sq_dist_spec(*other) as nat, r as nat),
            r as int == dist_of(*self, *other),
            r <= 3 * COORD_LIMIT,
    {
        let dx = self.x - other.x;
        let dy = self.y - other.y;
        let s = square_sum(dx, dy);
        let r = isqrt(s);
        proof { lemma_isqrt_spec(self.sq_dist_spec(*other) as nat, r as nat); }
        r
    }

    /// Length of a displacement, rounded down.
    pub fn length(&self) -> (r: u64)
        requires
            self.is_displacement(),
        ensures
            is_isqrt(self.sq_len_spec() as nat, r as nat),
            r as int == len_of(*self),
            r <= 3 * COORD_LIMIT,
    {
        let s = square_sum(self.x, self.y);
        let r = isqrt(s);
        proof { lemma_len_of(*self, r as nat); }
        r
    }

    /// Direction of a displacement scaled to length `MILLI` (each component
    /// truncated toward zero); the zero vector maps to itself.
    pub fn normalize(&self) -> (r: Vec2)
        requires
            self.is_displacement(),
        ensures
            r == normalize_spec(*self),
            -MILLI <= r.x <= MILLI,
            -MILLI <= r.y <= MILLI,
    {
        let s = square_sum(self.x, self.y);
        let len = isqrt(s);
        proof { lemma_len_of(*self, len as nat); }
        if len > 0 {
            proof {
                lemma_component_le_len(self.x as int, self.y as int, len as int);
                lemma_scale_unit(self.x as int, len as int);
                lemma_scale_unit(self.y as int, len as int);
            }
            Vec2 { x: scale(self.x, MILLI, len as i64), y: scale(self.y, MILLI, len as i64) }
        } else {
            Vec2 { x: 0, y: 0 }
        }
    }
}

/// Length of `v`: the rounded-down root of its squared length.
pub open spec fn len_of(v: Vec2) -> int {
    isqrt_spec(v.sq_len_spec() as nat) as int
}

/// Distance between two points, rounded down.
pub open spec fn dist_of(a: Vec2, b: Vec2) -> int {
    isqrt_spec(a.sq_dist_spec(b) as nat) as int
}

pub open spec fn isqrt_spec(n: nat) -> nat {
    choose|r: nat| is_isqrt(n, r)
}

proof fn lemma_isqrt_unique(n: nat, a: nat, b: nat)
    requires
        is_isqrt(n, a),
        is_isqrt(n, b),
    ensures
        a == b,
{
    if a < b {
        assert(a + 1 <= b);
        assert((a + 1) * (a + 1) <= b * b) by (nonlinear_arith)
            requires a + 1 <= b;
    } else if b < a {
        assert((b + 1) * (b + 1) <= a * a) by (nonlinear_arith)
            requires b + 1 <= a;
    }
}

/// A root found by computation is the one the spec names.
pub proof fn lemma_isqrt_spec(n: nat, r: nat)
    requires
        is_isqrt(n, r),
    ensures
        isqrt_spec(n) == r,
{
    let c = isqrt_spec(n);
    assert(is_isqrt(n, c));
    lemma_isqrt_unique(n, c, r);
}

proof fn lemma_len_of(v: Vec2, r: nat)
    requires
        is_isqrt(v.sq_len_spec() as nat, r),
    ensures
        len_of(v) == r,
{
    lemma_isqrt_spec(v.sq_len_spec() as nat, r);
}

/// Each component is at most the length.
pub proof fn lemma_component_le_len(x: int, y: int, len: int)
    requires
        len >= 0,
        x * x + y * y < (len + 1) * (len + 1),
    ensures
        -len <= x <= len,
        -len <= y <= len,
{
    assert(0 <= y * y) by (nonlinear_arith);
    assert(0 <= x * x) by (nonlinear_arith);
    if x > len {
        assert((len + 1) * (len + 1) <= x * x) by (nonlinear_arith)
            requires x >= len + 1, len >= 0;
    }
    if x < -len {
        assert((len + 1) * (len + 1) <= x * x) by (nonlinear_arith)
            requires -x >= len + 1, len >= 0;
    }
    if y > len {
        assert((len + 1) * (len + 1) <= y * y) by (nonlinear_arith)
            requires y >= len + 1, len >= 0;
    }
    if y < -len {
        assert((len + 1) * (len + 1) <= y * y) by (nonlinear_arith)
            requires -y >= len + 1, len >= 0;
    }
}

/// Scaling a component by `MILLI / len` stays within one unit.
proof fn lemma_scale_unit(x: int, len: int)
    requires
        len > 0,
        -len <= x <= len,
    ensures
        -MILLI <= scale_spec(x, MILLI as int, len) <= MILLI,
{
    if x >= 0 {
        lemma_div_le(x, MILLI as int, len);
    } else {
        lemma_div_le(-x, MILLI as int, len);
    }
}

/// `0 <= d * num / den <= num` when `0 <= d <= den`.
pub proof fn lemma_div_le(d: int, num: int, den: int)
    requires
        den > 0,
        0 <= d <= den,
        num >= 0,
    ensures
        0 <= (d * num) / den <= num,
{
    assert(0 <= d * num <= den * num) by (nonlinear_arith)
        requires 0 <= d <= den, num >= 0;
    vstd::arithmetic::div_mod::lemma_div_is_ordered(d * num, den * num, den);
    vstd::arithmetic::div_mod::lemma_div_by_multiple(num, den);
    assert(den * num == num * den) by (nonlinear_arith);
    vstd::arithmetic::div_mod::lemma_div_pos_is_pos(d * num, den);
}

/// `x * x + y * y`, for components of a displacement.
pub fn square_sum(x: i64, y: i64) -> (r: u64)
    requires
        -2 * COORD_LIMIT <= x <= 2 * COORD_LIMIT,
        -2 * COORD_LIMIT <= y <= 2 * COORD_LIMIT,
    ensures
        r == x * x + y * y,
        r <= max_sq(),
{
    assert(x * x <= 4 * COORD_LIMIT * COORD_LIMIT) by (nonlinear_arith)
        requires -2 * COORD_LIMIT <= x <= 2 * COORD_LIMIT;
    assert(y * y <= 4 * COORD_LIMIT * COORD_LIMIT) by (nonlinear_arith)
        requires -2 * COORD_LIMIT <= y <= 2 * COORD_LIMIT;
    assert(0 <= x * x) by (nonlinear_arith);
    assert(0 <= y * y) by (nonlinear_arith);
    let ax: u64 = if x >= 0 { x as u64 } else { (-x) as u64 };
    let ay: u64 = if y >= 0 { y as u64 } else { (-y) as u64 };
    assert(ax * ax == x * x) by (nonlinear_arith)
        requires ax == x || ax == -x;
    assert(ay * ay == y * y) by (nonlinear_arith)
        requires ay == y || ay == -y;
    ax * ax + ay * ay
}

/// Rounded-down square root, by bisection.
pub fn isqrt(n: u64) -> (r: u64)
    requires
        n <= max_sq(),
    ensures
        is_isqrt(n as nat, r as nat),
        r <= 3 * COORD_LIMIT,
{
    let mut lo: u64 = 0;
    let mut hi: u64 = 3 * COORD_LIMIT as u64;
    assert(n < (hi as int + 1) * (hi as int + 1)) by (nonlinear_arith)
        requires n <= max_sq(), hi == 3 * COORD_LIMIT;
    while lo < hi
        invariant
            lo <= hi <= 3 * COORD_LIMIT,
            lo * lo <= n,
            n < (hi + 1) * (hi + 1),
        decreases hi - lo,
    {
        let mid: u64 = lo + (hi - lo + 1) / 2;
        assert(mid * mid <= 9 * COORD_LIMIT * COORD_LIMIT) by (nonlinear_arith)
            requires mid <= 3 * COORD_LIMIT;
        if mid * mid <= n {
            lo = mid;
        } else {
            hi = mid - 1;
        }
    }
    lo
}

/// `d * num / den`, truncated toward zero.
pub fn scale(d: i64, num: i64, den: i64) -> (r: i64)
    requires
        den > 0,
        0 <= num <= 1_000_000_000,
        -4 * COORD_LIMIT <= d <= 4 * COORD_LIMIT,
    ensures
        r == scale_spec(d as int, num as int, den as int),
{
    assert(-(4 * COORD_LIMIT) * 1_000_000_000 <= d * num <= 4 * COORD_LIMIT * 1_000_000_000) by (nonlinear_arith)
        requires 0 <= num <= 1_000_000_000, -4 * COORD_LIMIT <= d <= 4 * COORD_LIMIT;
    if d >= 0 {
        assert(0 <= d * num) by (nonlinear_arith) requires d >= 0, num >= 0;
        (d * num) / den
    } else {
        assert(0 <= (-d) * num <= 4 * COORD_LIMIT * 1_000_000_000) by (nonlinear_arith)
            requires d < 0, -4 * COORD_LIMIT <= d, 0 <= num <= 1_000_000_000;
        -(((-d) * num) / den)
    }
}

/// `d * num / den`, truncated toward zero.
pub open spec fn scale_spec(d: int, num: int, den: int) -> int {
    if d >= 0 {
        (d * num) / den
    } else {
        -(((-d) * num) / den)
    }
}

pub open spec fn normalize_spec(v: Vec2) -> Vec2 {
    let len = len_of(v);
    if len > 0 {
        Vec2 { x: scale_spec(v.x as int, MILLI as int, len) as i64, y: scale_spec(v.y as int, MILLI as int, len) as i64 }
    } else {
        Vec2 { x: 0, y: 0 }
    }
}

} // verus!
