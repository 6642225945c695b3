use vstd::prelude::*;

verus! {

/// Bound on the magnitude of every coordinate, in thousandths of a world unit.
pub const POS_LIMIT: i64 = 0x100_0000_0000;

/// Speed of a pursuing predator: 10 world units per second is 10 thousandths per millisecond.
pub const PURSUE_SPEED_PER_MS: i64 = 10;

/// Longest time step, in milliseconds, that one tick may span.
pub const MAX_DT_MS: u64 = 1_000_000;

/// A point of the world, each coordinate in thousandths of a world unit.
#[derive(Clone, Copy, Debug, PartialEq, Eq, Structural)]
pub struct Position {
    pub x: i64,
    pub y: i64,
    pub z: i64,
}

impl Position {
    pub open spec fn wf(&self) -> bool {
        -POS_LIMIT <= self.x <= POS_LIMIT && -POS_LIMIT <= self.y <= POS_LIMIT && -POS_LIMIT
            <= self.z <= POS_LIMIT
    }

    pub fn new(x: i64, y: i64, z: i64) -> (r: Self)
        ensures
            r == (Position { x, y, z }),
    {
        Position { x, y, z }
    }
}

/// Squared Euclidean distance between two points.
pub open spec fn dist_sq_spec(a: Position, b: Position) -> int {
    let dx = b.x - a.x;
    let dy = b.y - a.y;
    let dz = b.z - a.z;
    dx * dx + dy * dy + dz * dz
}

/// Squared distance at `ROOT_SCALE` times the coordinates' precision.
pub open spec fn scaled_dist_sq(a: Position, b: Position) -> int {
    dist_sq_spec(a, b) * (ROOT_SCALE * ROOT_SCALE)
}

/// The integer square root: the largest `r` with `r * r <= n`.
pub open spec fn is_isqrt(n: int, r: int) -> bool {
    0 <= r && r * r <= n < (r + 1) * (r + 1)
}

proof fn lemma_square_bound(d: int)
    requires
        -2 * POS_LIMIT <= d <= 2 * POS_LIMIT,
    ensures
        0 <= d * d <= 4 * POS_LIMIT * POS_LIMIT,
{
    assert(0 <= d * d <= 4 * POS_LIMIT * POS_LIMIT) by (nonlinear_arith)
        requires
            -2 * POS_LIMIT <= d <= 2 * POS_LIMIT,
    ;
}

/// Squared distance between two well-formed points.
pub fn dist_sq(a: &Position, b: &Position) -> (r: u128)
    requires
        a.wf(),
        b.wf(),
    ensures
        r == dist_sq_spec(*a, *b),
        r <= 12 * POS_LIMIT * POS_LIMIT,
{
    let dx: i128 = b.x as i128 - a.x as i128;
    let dy: i128 = b.y as i128 - a.y as i128;
    let dz: i128 = b.z as i128 - a.z as i128;
    proof {
        lemma_square_bound(dx as int);
        lemma_square_bound(dy as int);
        lemma_square_bound(dz as int);
    }
    (dx * dx + dy * dy + dz * dz) as u128
}

/// Distances are measured at this many times the coordinates' precision, so that a
/// step's length stays close to what was asked even near the target.
pub const ROOT_SCALE: i64 = 1000;

/// Largest squared distance, at the root's precision, that can occur between two points.
pub const MAX_SCALED_SQ: u128 = 12 * 0x100_0000_0000 * 0x100_0000_0000 * 1_000_000;

/// Integer square root by bisection.
pub fn isqrt(n: u128) -> (r: u128)
    requires
        n <= MAX_SCALED_SQ,
    ensures
        is_isqrt(n as int, r as int),
{
    let mut lo: u128 = 0;
    let mut hi: u128 = 0x10_0000_0000_0000;
    assert(n < hi * hi) by (nonlinear_arith)
        requires
            n <= MAX_SCALED_SQ,
            hi == 0x10_0000_0000_0000,
    ;
    while lo + 1 < hi
        invariant
            lo < hi <= 0x10_0000_0000_0000,
            lo * lo <= n < hi * hi,
        decreases hi - lo,
    {
        let mid: u128 = lo + (hi - lo) / 2;
        assert(mid * mid <= 0x10_0000_0000_0000 * 0x10_0000_0000_0000) by (nonlinear_arith)
            requires
                mid < 0x10_0000_0000_0000,
        ;
        if mid * mid <= n {
            lo = mid;
        } else {
            hi = mid;
        }
    }
    assert(hi == lo + 1);
    lo
}

/// How far one coordinate moves toward its target: the offset `d` scaled by
/// `step / dist`, rounded toward zero. Here `d` and `dist` are both taken at
/// `ROOT_SCALE` times the coordinates' precision.
pub open spec fn offset_spec(d: int, step: int, dist: int) -> int {
    if d >= 0 {
        d * step / dist
    } else {
        -((-d) * step / dist)
    }
}

/// Where a point lands after moving `step` toward `target`, each coordinate clamped
/// to the world's bounds. The distance is the integer root of the squared distance
/// taken at `ROOT_SCALE` times the precision. A point on its target stays where it is.
pub open spec fn step_toward_spec(p: Position, target: Position, step: int) -> Position {
    let s = ROOT_SCALE as int;
    let dist = choose|r: int| is_isqrt(scaled_dist_sq(p, target), r);
    if dist == 0 {
        p
    } else {
        Position {
            x: clamp_coord(p.x + offset_spec((target.x - p.x) * s, step, dist)) as i64,
            y: clamp_coord(p.y + offset_spec((target.y - p.y) * s, step, dist)) as i64,
            z: clamp_coord(p.z + offset_spec((target.z - p.z) * s, step, dist)) as i64,
        }
    }
}

pub open spec fn clamp_coord(v: int) -> int {
    if v < -POS_LIMIT {
        -POS_LIMIT as int
    } else if v > POS_LIMIT {
        POS_LIMIT as int
    } else {
        v
    }
}

proof fn lemma_isqrt_unique(n: int, r1: int, r2: int)
    requires
        is_isqrt(n, r1),
        is_isqrt(n, r2),
    ensures
        r1 == r2,
{
    if r1 < r2 {
        assert((r1 + 1) * (r1 + 1) <= r2 * r2) by (nonlinear_arith)
            requires
                0 <= r1 < r2,
        ;
    } else if r2 < r1 {
        assert((r2 + 1) * (r2 + 1) <= r1 * r1) by (nonlinear_arith)
            requires
                0 <= r2 < r1,
        ;
    }
}

proof fn lemma_scaled_square(e: int)
    ensures
        (e * ROOT_SCALE) * (e * ROOT_SCALE) == (e * e) * 1_000_000,
{
    assert((e * 1000) * (e * 1000) == (e * e) * 1_000_000) by (nonlinear_arith);
}

/// `|d| <= dist` when `d * d <= n` and `dist` is the integer root of `n`.
proof fn lemma_offset_fits(d: int, n: int, dist: int)
    requires
        d * d <= n,
        is_isqrt(n, dist),
    ensures
        -dist <= d <= dist,
{
    if d > dist {
        assert((dist + 1) * (dist + 1) <= d * d) by (nonlinear_arith)
            requires
                0 <= dist < d,
        ;
    } else if d < -dist {
        assert((dist + 1) * (dist + 1) <= d * d) by (nonlinear_arith)
            requires
                0 <= dist,
                d < -dist,
        ;
    }
}

/// One coordinate of a move toward the target.
fn step_coord(p: i64, t: i64, step: i64, dist: u128) -> (r: i64)
    requires
        -POS_LIMIT <= p <= POS_LIMIT,
        -POS_LIMIT <= t <= POS_LIMIT,
        0 <= step <= PURSUE_SPEED_PER_MS * MAX_DT_MS,
        -(dist as int) <= (t - p) * ROOT_SCALE <= dist,
        0 < dist <= 0x10_0000_0000_0000,
    ensures
        r == clamp_coord(p + offset_spec((t - p) * ROOT_SCALE, step as int, dist as int)),
{
    let d: i128 = (t as i128 - p as i128) * (ROOT_SCALE as i128);
    let mag: u128 = if d >= 0 {
        d as u128
    } else {
        (-d) as u128
    };
    assert(mag * (step as u128) <= 0x10_0000_0000_0000 * 10_000_000) by (nonlinear_arith)
        requires
            mag <= 0x10_0000_0000_0000,
            step <= 10_000_000,
            step >= 0,
    ;
    let off: u128 = mag * (step as u128) / dist;
    assert(off <= mag * step) by (nonlinear_arith)
        requires
            off == (mag * step) / (dist as int),
            dist >= 1,
            mag >= 0,
            step >= 0,
    ;
    let moved: i128 = if d >= 0 {
        p as i128 + off as i128
    } else {
        p as i128 - off as i128
    };
    if moved < -(POS_LIMIT as i128) {
        -POS_LIMIT
    } else if moved > POS_LIMIT as i128 {
        POS_LIMIT
    } else {
        moved as i64
    }
}

/// Moves `p` by `step` thousandths toward `target`, rounding each coordinate's
/// displacement toward zero and clamping to the world's bounds.
pub fn step_toward(p: &Position, target: &Position, step: i64) -> (r: Position)
    requires
        p.wf(),
        target.wf(),
        0 <= step <= PURSUE_SPEED_PER_MS * MAX_DT_MS,
    ensures
        r == step_toward_spec(*p, *target, step as int),
        r.wf(),
{
    let n0 = dist_sq(p, target);
    let n = n0 * 1_000_000;
    let dist = isqrt(n);
    let ghost s = ROOT_SCALE as int;
    let ghost dx = (target.x - p.x) * s;
    let ghost dy = (target.y - p.y) * s;
    let ghost dz = (target.z - p.z) * s;
    proof {
        let c = choose|r: int| is_isqrt(scaled_dist_sq(*p, *target), r);
        assert(is_isqrt(n as int, dist as int));
        lemma_isqrt_unique(n as int, c, dist as int);
        let ex = target.x - p.x;
        let ey = target.y - p.y;
        let ez = target.z - p.z;
        lemma_scaled_square(ex);
        lemma_scaled_square(ey);
        lemma_scaled_square(ez);
        assert(dx * dx >= 0 && dy * dy >= 0 && dz * dz >= 0) by (nonlinear_arith);
        lemma_offset_fits(dx, n as int, dist as int);
        lemma_offset_fits(dy, n as int, dist as int);
        lemma_offset_fits(dz, n as int, dist as int);
        assert(dist <= 0x10_0000_0000_0000) by (nonlinear_arith)
            requires
                dist * dist <= n,
                n <= MAX_SCALED_SQ,
                dist >= 0,
        ;
    }
    if dist == 0 {
        *p
    } else {
        Position {
            x: step_coord(p.x, target.x, step, dist),
            y: step_coord(p.y, target.y, step, dist),
            z: step_coord(p.z, target.z, step, dist),
        }
    }
}

} // verus!
