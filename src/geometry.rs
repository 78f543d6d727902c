//! Fixed-point plane geometry for the battlefield.
//!
//! Coordinates are integers in milli-units (1000 per world unit). Distances are
//! compared through their squares, so no square root is needed for range tests;
//! the integer square root is used only to scale a movement along a direction.
use vstd::prelude::*;

verus! {

/// Largest absolute coordinate an entity may stand on before movement.
pub const COORD_LIMIT: i64 = 1_000_000_000;

/// Largest distance covered by one movement step, in milli-units.
pub const STEP_LIMIT: u64 = 1_000_000_000;

/// Length of a unit direction vector in milli-units.
pub const UNIT: i64 = 1000;

/// Largest speed, in milli-units per second.
pub const SPEED_LIMIT: u64 = 1_000_000;

/// Longest tick, in milliseconds.
pub const DT_LIMIT: u64 = 1_000_000;

/// A point of the plane, in milli-units.
#[derive(Clone, Copy, Debug, PartialEq, Eq, Structural)]
pub struct Position {
    pub x: i64,
    pub y: i64,
}

/// An axis-aligned rectangle that an entity's position is kept inside.
#[derive(Clone, Copy, Debug, PartialEq, Eq, Structural)]
pub struct Bounds {
    pub x_min: i64,
    pub x_max: i64,
    pub y_min: i64,
    pub y_max: i64,
}

pub open spec fn coord_ok(c: int) -> bool {
    -COORD_LIMIT <= c <= COORD_LIMIT
}

impl Position {
    /// Both coordinates lie in the range that movement is computed on.
    pub open spec fn in_range(self) -> bool {
        coord_ok(self.x as int) && coord_ok(self.y as int)
    }
}

impl Bounds {
    /// The rectangle is non-empty and lies inside the computable range.
    pub open spec fn wf(self) -> bool {
        self.x_min <= self.x_max && self.y_min <= self.y_max && coord_ok(self.x_min as int) && coord_ok(
            self.x_max as int,
        ) && coord_ok(self.y_min as int) && coord_ok(self.y_max as int)
    }

    pub open spec fn contains(self, p: Position) -> bool {
        self.x_min <= p.x <= self.x_max && self.y_min <= p.y <= self.y_max
    }

    pub open spec fn clamp_spec(self, p: Position) -> Position {
        Position { x: clamp_int(p.x, self.x_min, self.x_max), y: clamp_int(p.y, self.y_min, self.y_max) }
    }

    /// Moves a point to the nearest point of the rectangle: each coordinate is
    /// clamped to its interval.
    pub fn clamp(&self, p: Position) -> (r: Position)
        requires
            self.x_min <= self.x_max,
            self.y_min <= self.y_max,
        ensures
            r == self.clamp_spec(p),
            self.contains(r),
            self.contains(p) ==> r == p,
    {
        Position { x: clamp_i64(p.x, self.x_min, self.x_max), y: clamp_i64(p.y, self.y_min, self.y_max) }
    }
}

pub open spec fn clamp_int(v: i64, lo: i64, hi: i64) -> i64 {
    if v < lo {
        lo
    } else if v > hi {
        hi
    } else {
        v
    }
}

fn clamp_i64(v: i64, lo: i64, hi: i64) -> (r: i64)
    requires
        lo <= hi,
    ensures
        r == clamp_int(v, lo, hi),
{
    if v < lo {
        lo
    } else if v > hi {
        hi
    } else {
        v
    }
}

/// Squared Euclidean distance between two points.
pub open spec fn dist_sq(a: Position, b: Position) -> int {
    (b.x - a.x) * (b.x - a.x) + (b.y - a.y) * (b.y - a.y)
}

/// `r` is the integer square root of `n`.
pub open spec fn is_root(n: int, r: int) -> bool {
    0 <= r && r * r <= n < (r + 1) * (r + 1)
}

/// The integer square root (the floor of the real one) of a non-negative number.
pub open spec fn root(n: int) -> int {
    choose|r: int| is_root(n, r)
}

/// Ceiling of `a / b` for non-negative `a` and positive `b`.
pub open spec fn ceil_div(a: int, b: int) -> int {
    (a + b - 1) / b
}

/// Signed component of a move of length `step` along a difference vector whose
/// length is `len`, rounded away from zero.
pub open spec fn scaled(d: int, step: int, len: int) -> int {
    if d >= 0 {
        ceil_div(d * step, len)
    } else {
        -ceil_div(-d * step, len)
    }
}

/// Where a mover at `from` ends up after moving `step` towards `to`: it goes
/// along the unit direction from `from` to `to` and stays put when they coincide.
pub open spec fn step_toward_spec(from: Position, to: Position, step: int) -> Position {
    let n = dist_sq(from, to);
    if n == 0 {
        from
    } else {
        Position {
            x: (from.x + scaled(to.x - from.x, step, root(n))) as i64,
            y: (from.y + scaled(to.y - from.y, step, root(n))) as i64,
        }
    }
}

pub proof fn lemma_root_unique(n: int, r: int, s: int)
    requires
        is_root(n, r),
        is_root(n, s),
    ensures
        r == s,
{
    if r < s {
        assert((r + 1) * (r + 1) <= s * s) by (nonlinear_arith)
            requires
                0 <= r,
                r + 1 <= s,
        ;
    }
    if s < r {
        assert((s + 1) * (s + 1) <= r * r) by (nonlinear_arith)
            requires
                0 <= s,
                s + 1 <= r,
        ;
    }
}

pub proof fn lemma_root_is(n: int, r: int)
    requires
        is_root(n, r),
    ensures
        root(n) == r,
{
    let s = root(n);
    assert(is_root(n, s));
    lemma_root_unique(n, r, s);
}

/// Integer square root by bisection.
pub fn isqrt(n: u64) -> (r: u64)
    ensures
        is_root(n as int, r as int),
        r <= 4_294_967_295,
{
    let mut lo: u64 = 0;
    let mut hi: u64 = 4_294_967_296;
    assert(hi * hi > n) by (nonlinear_arith)
        requires
            hi == 4_294_967_296,
            n <= u64::MAX,
    ;
    while hi - lo > 1
        invariant
            lo < hi <= 4_294_967_296,
            lo * lo <= n,
            n < hi * hi,
        decreases hi - lo,
    {
        let mid: u64 = lo + (hi - lo) / 2;
        assert(mid * mid <= 4_294_967_295u64 * 4_294_967_295u64) by (nonlinear_arith)
            requires
                mid <= 4_294_967_295u64,
        ;
        if mid * mid <= n {
            lo = mid;
        } else {
            hi = mid;
        }
    }
    assert(hi == lo + 1);
    lo
}

/// Moves `from` by `step` milli-units towards `to`, along the direction that
/// joins them (rounded away from zero per axis). A mover that already stands on
/// its target does not move. A step longer than the distance carries the mover
/// past its target, as a fixed-speed move does.
pub fn step_toward(from: Position, to: Position, step: u64) -> (r: Position)
    requires
        from.in_range(),
        to.in_range(),
        step <= STEP_LIMIT,
    ensures
        r == step_toward_spec(from, to, step as int),
        -2 * COORD_LIMIT <= r.x <= 2 * COORD_LIMIT,
        -2 * COORD_LIMIT <= r.y <= 2 * COORD_LIMIT,
{
    let dx: i64 = to.x - from.x;
    let dy: i64 = to.y - from.y;
    let ax: u64 = if dx >= 0 {
        dx as u64
    } else {
        (-dx) as u64
    };
    let ay: u64 = if dy >= 0 {
        dy as u64
    } else {
        (-dy) as u64
    };
    assert(ax * ax <= 4_000_000_000_000_000_000u64 && ay * ay <= 4_000_000_000_000_000_000u64)
        by (nonlinear_arith)
        requires
            ax <= 2_000_000_000u64,
            ay <= 2_000_000_000u64,
    ;
    let n: u64 = ax * ax + ay * ay;
    assert(n as int == dist_sq(from, to)) by (nonlinear_arith)
        requires
            ax as int == if dx >= 0 { dx as int } else { -dx },
            ay as int == if dy >= 0 { dy as int } else { -dy },
            n == ax * ax + ay * ay,
            dx == to.x - from.x,
            dy == to.y - from.y,
    ;
    if n == 0 {
        return from;
    }
    let len: u64 = isqrt(n);
    proof {
        lemma_root_is(n as int, len as int);
        lemma_component_below_root(ax as int, ay as int, n as int, len as int);
        lemma_component_below_root(ay as int, ax as int, n as int, len as int);
    }
    let mx: u64 = ceil_div_u64(ax, step, len);
    let my: u64 = ceil_div_u64(ay, step, len);
    let x: i64 = if dx >= 0 {
        from.x + mx as i64
    } else {
        from.x - mx as i64
    };
    let y: i64 = if dy >= 0 {
        from.y + my as i64
    } else {
        from.y - my as i64
    };
    Position { x, y }
}

/// A component of a vector is no longer than the vector's integer length.
proof fn lemma_component_below_root(a: int, b: int, n: int, len: int)
    requires
        a >= 0,
        b >= 0,
        n == a * a + b * b,
        is_root(n, len),
        n > 0,
    ensures
        a <= len,
        len >= 1,
{
    if a > len {
        assert((len + 1) * (len + 1) <= a * a) by (nonlinear_arith)
            requires
                a >= len + 1,
                len >= 0,
        ;
        assert(b * b >= 0) by (nonlinear_arith);
    }
    if len == 0 {
        assert((0int + 1) * (0int + 1) == 1) by (nonlinear_arith);
        assert(n < 1);
    }
}

/// `ceil(a * step / len)` for `a <= len`, which is then at most `step`.
fn ceil_div_u64(a: u64, step: u64, len: u64) -> (r: u64)
    requires
        a <= len,
        1 <= len <= 4_294_967_295,
        step <= STEP_LIMIT,
    ensures
        r as int == ceil_div(a * step, len as int),
        r <= step,
{
    assert(a * step <= len * step) by (nonlinear_arith)
        requires
            a <= len,
    ;
    assert(len * step <= 4_294_967_295u64 * 1_000_000_000u64) by (nonlinear_arith)
        requires
            len <= 4_294_967_295u64,
            step <= 1_000_000_000u64,
    ;
    let p: u64 = a * step;
    let r: u64 = (p + len - 1) / len;
    assert(r <= step) by (nonlinear_arith)
        requires
            p <= len * step,
            len >= 1,
            r as int == (p + len - 1) as int / len as int,
    ;
    r
}

/// One axis of a step towards a target: when the step is no longer than the
/// distance, the remaining gap on this axis shrinks and keeps its sign.
proof fn lemma_scaled_axis(d: int, step: int, len: int)
    requires
        -len <= d <= len,
        len >= 1,
        0 <= step <= len,
    ensures
        (d - scaled(d, step, len)) * (d - scaled(d, step, len)) <= d * d,
        d != 0 && step > 0 ==> (d - scaled(d, step, len)) * (d - scaled(d, step, len)) < d * d,
        d >= 0 ==> 0 <= scaled(d, step, len) <= d,
        d < 0 ==> d <= scaled(d, step, len) <= 0,
{
    let a = if d >= 0 { d } else { -d };
    let m = ceil_div(a * step, len);
    assert(0 <= a * step <= a * len) by (nonlinear_arith)
        requires
            0 <= a,
            0 <= step <= len,
    ;
    assert(0 <= m <= a) by (nonlinear_arith)
        requires
            0 <= a * step <= a * len,
            len >= 1,
            m == (a * step + len - 1) / len,
    ;
    if a > 0 && step > 0 {
        assert(a * step >= 1) by (nonlinear_arith)
            requires
                a >= 1,
                step >= 1,
        ;
        assert(m >= 1) by (nonlinear_arith)
            requires
                a * step >= 1,
                len >= 1,
                m == (a * step + len - 1) / len,
        ;
    }
    assert((a - m) * (a - m) <= a * a) by (nonlinear_arith)
        requires
            0 <= m <= a,
    ;
    if a > 0 && step > 0 {
        assert((a - m) * (a - m) < a * a) by (nonlinear_arith)
            requires
                1 <= m <= a,
        ;
    }
    if d < 0 {
        assert((d - scaled(d, step, len)) * (d - scaled(d, step, len)) == (a - m) * (a - m))
            by (nonlinear_arith)
            requires
                scaled(d, step, len) == -m,
                a == -d,
        ;
        assert(d * d == a * a) by (nonlinear_arith)
            requires
                a == -d,
        ;
    }
}

/// `v` lies between `a` and `b`, bounds included.
pub open spec fn between(a: int, v: int, b: int) -> bool {
    (a <= v <= b) || (b <= v <= a)
}

/// A step that is no longer than the distance to the target never takes the
/// mover farther from it, and a non-empty step brings it strictly closer unless
/// it already stands on the target.
pub proof fn lemma_step_toward_approaches(from: Position, to: Position, step: int)
    requires
        from.in_range(),
        to.in_range(),
        0 <= step <= root(dist_sq(from, to)),
    ensures
        dist_sq(step_toward_spec(from, to, step), to) <= dist_sq(from, to),
        step > 0 && dist_sq(from, to) > 0 ==> dist_sq(step_toward_spec(from, to, step), to)
            < dist_sq(from, to),
        between(from.x as int, step_toward_spec(from, to, step).x as int, to.x as int),
        between(from.y as int, step_toward_spec(from, to, step).y as int, to.y as int),
{
    let n = dist_sq(from, to);
    let dx = to.x - from.x;
    let dy = to.y - from.y;
    if n != 0 {
        let ax = if dx >= 0 { dx } else { -dx };
        let ay = if dy >= 0 { dy } else { -dy };
        assert(n == ax * ax + ay * ay) by (nonlinear_arith)
            requires
                n == dx * dx + dy * dy,
                ax == if dx >= 0 { dx } else { -dx },
                ay == if dy >= 0 { dy } else { -dy },
        ;
        assert(ax * ax >= 0 && ay * ay >= 0) by (nonlinear_arith);
        let len = root(n);
        assert(exists|r: int| is_root(n, r)) by {
            let r = isqrt_witness(n);
        }
        assert(is_root(n, len));
        lemma_component_below_root(ax, ay, n, len);
        lemma_component_below_root(ay, ax, n, len);
        lemma_scaled_axis(dx, step, len);
        lemma_scaled_axis(dy, step, len);
        let mx = scaled(dx, step, len);
        let my = scaled(dy, step, len);
        assert(-len <= mx <= len && -len <= my <= len) by {
            lemma_scaled_bounded(dx, step, len);
            lemma_scaled_bounded(dy, step, len);
        }
        assert(dx * dx <= 4_000_000_000_000_000_000 && dy * dy <= 4_000_000_000_000_000_000)
            by (nonlinear_arith)
            requires
                -2_000_000_000 <= dx <= 2_000_000_000,
                -2_000_000_000 <= dy <= 2_000_000_000,
        ;
        assert(len <= 3_000_000_000) by (nonlinear_arith)
            requires
                len * len <= n,
                n <= 8_000_000_000_000_000_000,
                len >= 0,
        ;
        let r = step_toward_spec(from, to, step);
        assert(r.x == from.x + mx);
        assert(r.y == from.y + my);
        if dx == 0 && dy == 0 {
            assert(n == 0) by (nonlinear_arith)
                requires
                    dx == 0,
                    dy == 0,
                    n == dx * dx + dy * dy,
            ;
        }
    }
}

/// The move along one axis is no longer than the step.
proof fn lemma_scaled_bounded(d: int, step: int, len: int)
    requires
        -len <= d <= len,
        len >= 1,
        0 <= step <= len,
    ensures
        -step <= scaled(d, step, len) <= step,
{
    let a = if d >= 0 { d } else { -d };
    assert(0 <= a * step <= len * step) by (nonlinear_arith)
        requires
            0 <= a <= len,
            0 <= step,
    ;
    assert(0 <= ceil_div(a * step, len) <= step) by (nonlinear_arith)
        requires
            0 <= a * step <= len * step,
            len >= 1,
    ;
}

/// Every non-negative number has an integer square root.
proof fn isqrt_witness(n: int) -> (r: int)
    requires
        0 <= n,
    ensures
        is_root(n, r),
    decreases n,
{
    if n == 0 {
        assert(is_root(0, 0)) by (nonlinear_arith);
        0
    } else {
        let s = isqrt_witness(n - 1);
        if (s + 1) * (s + 1) <= n {
            assert((s + 1) * (s + 1) == n) by (nonlinear_arith)
                requires
                    (s + 1) * (s + 1) <= n,
                    n - 1 < (s + 1) * (s + 1),
            ;
            assert(n < (s + 2) * (s + 2)) by (nonlinear_arith)
                requires
                    (s + 1) * (s + 1) == n,
                    s >= 0,
            ;
            s + 1
        } else {
            assert(is_root(n, s)) by (nonlinear_arith)
                requires
                    is_root(n - 1, s),
                    n < (s + 1) * (s + 1),
            ;
            s
        }
    }
}

/// `a / b` rounded toward zero, for positive `b`.
pub open spec fn trunc_div(a: int, b: int) -> int {
    if a >= 0 {
        a / b
    } else {
        -((-a) / b)
    }
}

/// Distance covered in `dt_ms` milliseconds at `speed` milli-units per second.
pub open spec fn travel_spec(speed: u64, dt_ms: u64) -> int {
    (speed * dt_ms) / 1000
}

pub fn travel(speed: u64, dt_ms: u64) -> (r: u64)
    requires
        speed <= SPEED_LIMIT,
        dt_ms <= DT_LIMIT,
    ensures
        r == travel_spec(speed, dt_ms),
        r <= STEP_LIMIT,
{
    assert(speed * dt_ms <= 1_000_000_000_000) by (nonlinear_arith)
        requires
            speed <= 1_000_000,
            dt_ms <= 1_000_000,
    ;
    speed * dt_ms / 1000
}

/// A direction whose components are at most one unit long.
pub open spec fn is_direction(d: Position) -> bool {
    -UNIT <= d.x <= UNIT && -UNIT <= d.y <= UNIT
}

/// `p` moved `step` milli-units along the direction `dir`, each coordinate
/// rounded toward zero.
pub open spec fn shifted(p: Position, dir: Position, step: int) -> Position {
    Position {
        x: (p.x + trunc_div(dir.x * step, UNIT as int)) as i64,
        y: (p.y + trunc_div(dir.y * step, UNIT as int)) as i64,
    }
}

fn shift_axis(c: i64, d: i64, step: u64) -> (r: i64)
    requires
        coord_ok(c as int),
        -UNIT <= d <= UNIT,
        step <= STEP_LIMIT,
    ensures
        r == c + trunc_div(d * step, UNIT as int),
        -2 * COORD_LIMIT <= r <= 2 * COORD_LIMIT,
{
    let s: i64 = step as i64;
    assert(-1_000_000_000_000 <= d * s <= 1_000_000_000_000) by (nonlinear_arith)
        requires
            -1000 <= d <= 1000,
            0 <= s <= 1_000_000_000,
    ;
    let p: i64 = d * s;
    if p >= 0 {
        c + p / UNIT
    } else {
        c - (-p) / UNIT
    }
}

/// Moves `p` by `step` milli-units along the direction `dir`.
pub fn shift(p: Position, dir: Position, step: u64) -> (r: Position)
    requires
        p.in_range(),
        is_direction(dir),
        step <= STEP_LIMIT,
    ensures
        r == shifted(p, dir, step as int),
        -2 * COORD_LIMIT <= r.x <= 2 * COORD_LIMIT,
        -2 * COORD_LIMIT <= r.y <= 2 * COORD_LIMIT,
{
    Position { x: shift_axis(p.x, dir.x, step), y: shift_axis(p.y, dir.y, step) }
}

/// The vector `(x, y)` scaled to unit length (`UNIT` milli-units), or the zero
/// vector if it is zero. The length is taken of the vector scaled by `UNIT`
/// first, so that short vectors keep their direction.
pub open spec fn unit_dir(x: int, y: int) -> Position {
    let n = (x * UNIT) * (x * UNIT) + (y * UNIT) * (y * UNIT);
    if n == 0 {
        Position { x: 0, y: 0 }
    } else {
        Position {
            x: trunc_div(x * UNIT * UNIT, root(n)) as i64,
            y: trunc_div(y * UNIT * UNIT, root(n)) as i64,
        }
    }
}

fn unit_axis(c: i64, len: u64) -> (r: i64)
    requires
        -(len as int) <= c <= len,
        1 <= len <= 2_000_000,
    ensures
        r == trunc_div(c * UNIT, len as int),
        -UNIT <= r <= UNIT,
{
    let l: i64 = len as i64;
    if c >= 0 {
        assert((c * 1000) as int / (l as int) <= 1000) by (nonlinear_arith)
            requires
                0 <= c <= l,
                l >= 1,
        ;
        c * UNIT / l
    } else {
        assert((-c * 1000) as int / (l as int) <= 1000) by (nonlinear_arith)
            requires
                0 <= -c <= l,
                l >= 1,
        ;
        -((-c) * UNIT / l)
    }
}

/// Normalises a vector of components in `[-UNIT, UNIT]` to unit length; the
/// zero vector stays zero.
pub fn unit_direction(x: i64, y: i64) -> (r: Position)
    requires
        -UNIT <= x <= UNIT,
        -UNIT <= y <= UNIT,
    ensures
        r == unit_dir(x as int, y as int),
        is_direction(r),
{
    let sx: i64 = x * UNIT;
    let sy: i64 = y * UNIT;
    let ax: u64 = if sx >= 0 {
        sx as u64
    } else {
        (-sx) as u64
    };
    let ay: u64 = if sy >= 0 {
        sy as u64
    } else {
        (-sy) as u64
    };
    assert(ax * ax <= 1_000_000_000_000 && ay * ay <= 1_000_000_000_000) by (nonlinear_arith)
        requires
            ax <= 1_000_000,
            ay <= 1_000_000,
    ;
    let n: u64 = ax * ax + ay * ay;
    assert(n as int == sx * sx + sy * sy) by (nonlinear_arith)
        requires
            ax as int == if sx >= 0 { sx as int } else { -sx },
            ay as int == if sy >= 0 { sy as int } else { -sy },
            n == ax * ax + ay * ay,
    ;
    if n == 0 {
        return Position { x: 0, y: 0 };
    }
    let len: u64 = isqrt(n);
    proof {
        lemma_root_is(n as int, len as int);
        lemma_component_below_root(ax as int, ay as int, n as int, len as int);
        lemma_component_below_root(ay as int, ax as int, n as int, len as int);
        assert(len <= 2_000_000) by (nonlinear_arith)
            requires
                len * len <= n,
                n <= 2_000_000_000_000,
        ;
    }
    Position { x: unit_axis(sx, len), y: unit_axis(sy, len) }
}

/// Squared distance between two points of the computable range.
pub fn distance_sq(a: Position, b: Position) -> (r: u64)
    requires
        a.in_range(),
        b.in_range(),
    ensures
        r == dist_sq(a, b),
{
    let dx: i64 = b.x - a.x;
    let dy: i64 = b.y - a.y;
    assert(0 <= dx * dx <= 4_000_000_000_000_000_000 && 0 <= dy * dy <= 4_000_000_000_000_000_000)
        by (nonlinear_arith)
        requires
            -2_000_000_000 <= dx <= 2_000_000_000,
            -2_000_000_000 <= dy <= 2_000_000_000,
    ;
    ((dx * dx) as u64) + ((dy * dy) as u64)
}

/// `q` lies within `range` of `p`.
pub open spec fn within(p: Position, q: Position, range: u64) -> bool {
    dist_sq(p, q) <= range * range
}

pub fn is_within(p: Position, q: Position, range: u64) -> (r: bool)
    requires
        p.in_range(),
        q.in_range(),
    ensures
        r == within(p, q, range),
{
    let d: u64 = distance_sq(p, q);
    let w: u128 = range as u128;
    assert(w * w <= 0xffff_ffff_ffff_ffffu128 * 0xffff_ffff_ffff_ffffu128) by (nonlinear_arith)
        requires
            w <= 0xffff_ffff_ffff_ffffu128,
    ;
    let r2: u128 = w * w;
    (d as u128) <= r2
}

} // verus!
