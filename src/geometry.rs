//! Fixed-point plane geometry: positions, squared distances, integer square
//! roots and truncating scaling of vector components.
use vstd::prelude::*;

verus! {

/// Length units per world unit.
pub const UNITS_PER_WORLD: i64 = 10_000;

/// Length units per tile (0.15 world units).
pub const TILE: i64 = 1_500;

/// Every position lies in the square `[-COORD_LIMIT, COORD_LIMIT]²` (2^40).
pub const COORD_LIMIT: i64 = 1_099_511_627_776;

/// Microseconds per second: speeds are in units per second, times in microseconds.
pub const MICROS_PER_SECOND: u64 = 1_000_000;

/// A point (or a vector) of the plane, in length units.
#[derive(Clone, Copy, Debug, PartialEq, Eq, Structural)]
pub struct Position {
    pub x: i64,
    pub y: i64,
}

/// `v` lies within the world's bounds.
pub open spec fn coord_ok(v: int) -> bool {
    -COORD_LIMIT <= v <= COORD_LIMIT
}

impl Position {
    /// The point lies inside the world square.
    pub open spec fn in_world(self) -> bool {
        coord_ok(self.x as int) && coord_ok(self.y as int)
    }

    /// The vector is at most as long, on each axis, as a difference of two
    /// points of the world.
    pub open spec fn is_span(self) -> bool {
        -2 * COORD_LIMIT <= self.x <= 2 * COORD_LIMIT && -2 * COORD_LIMIT <= self.y <= 2
            * COORD_LIMIT
    }

    pub open spec fn is_zero(self) -> bool {
        self.x == 0 && self.y == 0
    }

    pub fn new(x: i64, y: i64) -> (r: Position)
        ensures
            r.x == x,
            r.y == y,
    {
        Position { x, y }
    }
}

/// Squared Euclidean distance between two points.
pub open spec fn dist_sq(a: Position, b: Position) -> int {
    (a.x - b.x) * (a.x - b.x) + (a.y - b.y) * (a.y - b.y)
}

/// Squared length of a vector.
pub open spec fn len_sq(v: Position) -> int {
    v.x * v.x + v.y * v.y
}

/// The vector from `from` to `to`.
pub open spec fn span(from: Position, to: Position) -> Position {
    Position { x: (to.x - from.x) as i64, y: (to.y - from.y) as i64 }
}

/// `r` is the square root of `n`, rounded down.
pub open spec fn is_root(r: int, n: int) -> bool {
    0 <= r && r * r <= n < (r + 1) * (r + 1)
}

/// The square root of `n`, rounded down.
pub open spec fn root(n: int) -> int {
    choose|r: int| is_root(r, n)
}

/// `c * num / den`, rounded toward zero.
pub open spec fn scale(c: int, num: int, den: int) -> int {
    if c >= 0 {
        c * num / den
    } else {
        -((-c) * num / den)
    }
}

/// `v` moved into the world's bounds.
pub open spec fn clamp_coord(v: int) -> int {
    if v < -COORD_LIMIT {
        -COORD_LIMIT as int
    } else if v > COORD_LIMIT {
        COORD_LIMIT as int
    } else {
        v
    }
}

/// Two roots of one number are equal.
pub proof fn lemma_root_unique(r: int, s: int, n: int)
    requires
        is_root(r, n),
        is_root(s, n),
    ensures
        r == s,
{
    if r < s {
        assert((r + 1) * (r + 1) <= s * s) by (nonlinear_arith)
            requires
                0 <= r + 1 <= s,
        ;
    } else if s < r {
        assert((s + 1) * (s + 1) <= r * r) by (nonlinear_arith)
            requires
                0 <= s + 1 <= r,
        ;
    }
}

/// A root found is the root.
pub proof fn lemma_root_is(r: int, n: int)
    requires
        is_root(r, n),
    ensures
        root(n) == r,
{
    let s = root(n);
    assert(is_root(s, n));
    lemma_root_unique(r, s, n);
}

/// The absolute value of a coordinate difference is at most the root of the
/// squared length.
pub proof fn lemma_component_le_root(c: int, d: int, n: int)
    requires
        c * c + d * d == n,
        is_root(root(n), n),
    ensures
        -root(n) <= c <= root(n),
{
    let r = root(n);
    if c > r {
        assert((r + 1) * (r + 1) <= c * c) by (nonlinear_arith)
            requires
                0 <= r + 1 <= c,
        ;
        assert(d * d >= 0) by (nonlinear_arith);
    } else if c < -r {
        assert((r + 1) * (r + 1) <= c * c) by (nonlinear_arith)
            requires
                0 <= r + 1 <= -c,
        ;
        assert(d * d >= 0) by (nonlinear_arith);
    }
}

/// Squared distance between two points of the world.
pub fn distance_squared(a: Position, b: Position) -> (r: u128)
    requires
        a.in_world(),
        b.in_world(),
    ensures
        r == dist_sq(a, b),
{
    let dx: i128 = a.x as i128 - b.x as i128;
    let dy: i128 = a.y as i128 - b.y as i128;
    assert(0 <= dx * dx <= 0x4_0000_0000_0000_0000_0000) by (nonlinear_arith)
        requires
            -0x200_0000_0000 <= dx <= 0x200_0000_0000,
    ;
    assert(0 <= dy * dy <= 0x4_0000_0000_0000_0000_0000) by (nonlinear_arith)
        requires
            -0x200_0000_0000 <= dy <= 0x200_0000_0000,
    ;
    (dx * dx + dy * dy) as u128
}

/// Squared length of a span vector.
pub fn length_squared(v: Position) -> (r: u128)
    requires
        v.is_span(),
    ensures
        r == len_sq(v),
{
    let x: i128 = v.x as i128;
    let y: i128 = v.y as i128;
    assert(0 <= x * x <= 0x4_0000_0000_0000_0000_0000) by (nonlinear_arith)
        requires
            -0x200_0000_0000 <= x <= 0x200_0000_0000,
    ;
    assert(0 <= y * y <= 0x4_0000_0000_0000_0000_0000) by (nonlinear_arith)
        requires
            -0x200_0000_0000 <= y <= 0x200_0000_0000,
    ;
    (x * x + y * y) as u128
}

/// Square root rounded down, by bisection.
pub fn isqrt(n: u128) -> (r: u64)
    requires
        n < 0x10_0000_0000_0000_0000_0000,
    ensures
        is_root(r as int, n as int),
        r == root(n as int),
        r < 0x400_0000_0000,
{
    let mut lo: u128 = 0;
    let mut hi: u128 = 0x400_0000_0000;
    assert(hi * hi == 0x10_0000_0000_0000_0000_0000);
    while hi - lo > 1
        invariant
            lo < hi <= 0x400_0000_0000,
            lo * lo <= n,
            n < hi * hi,
        decreases hi - lo,
    {
        let mid: u128 = lo + (hi - lo) / 2;
        assert(mid * mid <= 0x10_0000_0000_0000_0000_0000) by (nonlinear_arith)
            requires
                0 <= mid <= 0x400_0000_0000,
        ;
        if mid * mid <= n {
            lo = mid;
        } else {
            hi = mid;
        }
    }
    assert(hi == lo + 1);
    proof {
        lemma_root_is(lo as int, n as int);
    }
    lo as u64
}

/// `c * num / den` rounded toward zero, for a component `c` no longer than
/// `den` and a factor `num` below 2^80.
pub fn scale_component(c: i64, num: u128, den: u128) -> (r: i128)
    requires
        0 < den,
        -den <= c <= den,
        den <= 0x400_0000_0000,
        num < 0x1_0000_0000_0000_0000_0000,
    ensures
        r == scale(c as int, num as int, den as int),
        -num <= r <= num,
{
    let m: u128 = if c >= 0 {
        c as u128
    } else {
        (-(c as i128)) as u128
    };
    assert(m * num <= den * num) by (nonlinear_arith)
        requires
            0 <= m <= den,
            0 <= num,
    ;
    assert(den * num < 0x400_0000_0000 * 0x1_0000_0000_0000_0000_0000) by (nonlinear_arith)
        requires
            0 < den <= 0x400_0000_0000,
            0 <= num < 0x1_0000_0000_0000_0000_0000,
    ;
    let q: u128 = m * num / den;
    assert(q <= num) by (nonlinear_arith)
        requires
            q == (m * num) as int / den as int,
            m * num <= den * num,
            0 < den,
            0 <= num,
    ;
    if c >= 0 {
        q as i128
    } else {
        -(q as i128)
    }
}

/// A coordinate moved into the world's bounds.
pub fn clamp_to_world(v: i128) -> (r: i64)
    ensures
        r == clamp_coord(v as int),
{
    if v < -(COORD_LIMIT as i128) {
        -COORD_LIMIT
    } else if v > COORD_LIMIT as i128 {
        COORD_LIMIT
    } else {
        v as i64
    }
}


/// The distance covered in `dt` microseconds at `c` units per second,
/// rounded toward zero.
pub fn scale_by_time(c: i64, dt: u64) -> (r: i128)
    requires
        -0x1_0000_0000 <= c <= 0x1_0000_0000,
    ensures
        r == scale(c as int, dt as int, MICROS_PER_SECOND as int),
        -0x1_0000_0000_0000_0000_0000 <= r <= 0x1_0000_0000_0000_0000_0000,
{
    let m: u128 = if c >= 0 {
        c as u128
    } else {
        (-(c as i128)) as u128
    };
    assert(m * dt <= 0x1_0000_0000 * 0xffff_ffff_ffff_ffff) by (nonlinear_arith)
        requires
            0 <= m <= 0x1_0000_0000,
            0 <= dt <= 0xffff_ffff_ffff_ffff,
    ;
    let q: u128 = m * dt as u128 / MICROS_PER_SECOND as u128;
    assert(q <= 0x1_0000_0000_0000_0000_0000) by (nonlinear_arith)
        requires
            q == (m * dt) as int / 1_000_000,
            m * dt <= 0x1_0000_0000 * 0xffff_ffff_ffff_ffff,
    ;
    if c >= 0 {
        q as i128
    } else {
        -(q as i128)
    }
}


/// Every natural number has a square root rounded down.
pub proof fn lemma_root_exists(n: int)
    requires
        0 <= n,
    ensures
        is_root(root(n), n),
    decreases n,
{
    if n == 0 {
        assert(is_root(0, 0));
    } else {
        lemma_root_exists(n - 1);
        let r = root(n - 1);
        if (r + 1) * (r + 1) <= n {
            assert(is_root(r + 1, n)) by (nonlinear_arith)
                requires
                    0 <= r,
                    n - 1 < (r + 1) * (r + 1),
                    (r + 1) * (r + 1) <= n,
            ;
        } else {
            assert(is_root(r, n));
        }
    }
}

/// The root of a positive number is positive.
pub proof fn lemma_root_positive(n: int)
    requires
        0 < n,
    ensures
        0 < root(n),
{
    lemma_root_exists(n);
    if root(n) == 0 {
        assert((root(n) + 1) * (root(n) + 1) == 1) by (nonlinear_arith)
            requires
                root(n) == 0,
        ;
    }
}


/// Offset that makes every coordinate of the world non-negative while
/// keeping tile boundaries in place (a multiple of `TILE` above `COORD_LIMIT`).
const SNAP_SHIFT: i64 = 3_221_225_472_000;

/// The centre of the tile that holds `v`: `floor((v + TILE / 2) / TILE) * TILE`.
pub open spec fn snapped(v: int) -> int {
    ((v + TILE / 2) / TILE as int) * TILE
}

/// The centre of the tile under `p`.
pub fn snap_to_tile(p: Position) -> (r: Position)
    requires
        p.in_world(),
    ensures
        r.x == snapped(p.x as int),
        r.y == snapped(p.y as int),
{
    Position { x: snap_coord(p.x), y: snap_coord(p.y) }
}

fn snap_coord(v: i64) -> (r: i64)
    requires
        coord_ok(v as int),
    ensures
        r == snapped(v as int),
{
    let a: u64 = (v + TILE / 2 + SNAP_SHIFT) as u64;
    let q: u64 = a / TILE as u64;
    assert(q as int == (v + TILE / 2) as int / TILE as int + 2_147_483_648) by (nonlinear_arith)
        requires
            a == v + 750 + 2_147_483_648 * 1500,
            q == a / 1500,
    ;
    assert(q * 1500 <= 0x1_0000_0000_0000) by (nonlinear_arith)
        requires
            q == a / 1500,
            a <= 0x1_0000_0000_0000,
    ;
    (q * TILE as u64) as i64 - SNAP_SHIFT
}

/// Scaling a component no longer than `den` by `num / den` gives at most `num`.
pub proof fn lemma_scale_bound(c: int, num: int, den: int)
    requires
        0 < den,
        -den <= c <= den,
        0 <= num,
    ensures
        -num <= scale(c, num, den) <= num,
{
    let m = if c >= 0 {
        c
    } else {
        -c
    };
    assert(m * num / den <= num && 0 <= m * num / den) by (nonlinear_arith)
        requires
            0 <= m <= den,
            0 < den,
            0 <= num,
    ;
}

} // verus!
