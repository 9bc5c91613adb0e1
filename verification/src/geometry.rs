//! Integer canvas geometry: points on the unit grid, squared distances and
//! exact integer square roots.

use vstd::prelude::*;

verus! {

/// Largest magnitude of a coordinate that the stroke arithmetic accepts.
pub const COORD_LIMIT: i32 = 0x2000_0000;

/// A canvas position in grid units.
#[derive(Clone, Copy, Debug, PartialEq, Eq, Structural)]
pub struct Point {
    pub x: i32,
    pub y: i32,
}

impl Point {
    /// Both coordinates lie within `COORD_LIMIT` of the origin.
    pub open spec fn in_range(self) -> bool {
        &&& -COORD_LIMIT <= self.x <= COORD_LIMIT
        &&& -COORD_LIMIT <= self.y <= COORD_LIMIT
    }

    pub fn new(x: i32, y: i32) -> (p: Point)
        ensures
            p.x == x,
            p.y == y,
    {
        Point { x, y }
    }

    /// Tells whether the stroke arithmetic accepts this point.
    pub fn is_in_range(&self) -> (ok: bool)
        ensures
            ok == self.in_range(),
    {
        -COORD_LIMIT <= self.x && self.x <= COORD_LIMIT && -COORD_LIMIT <= self.y && self.y
            <= COORD_LIMIT
    }
}

/// The absolute value of an integer.
pub open spec fn abs(v: int) -> int {
    if v < 0 {
        -v
    } else {
        v
    }
}

/// The squared Euclidean distance between two points.
pub open spec fn dist_sq(a: Point, b: Point) -> int {
    (b.x - a.x) * (b.x - a.x) + (b.y - a.y) * (b.y - a.y)
}

/// `r` is the integer part of the square root of `n`.
pub open spec fn is_floor_sqrt(r: int, n: int) -> bool {
    0 <= r && r * r <= n < (r + 1) * (r + 1)
}

/// The integer part of the square root of `n`, for `n >= 0`.
pub closed spec fn floor_sqrt(n: int) -> int {
    choose|r: int| is_floor_sqrt(r, n)
}

proof fn lemma_floor_sqrt_exists(n: nat)
    ensures
        exists|r: int| is_floor_sqrt(r, n as int),
    decreases n,
{
    if n == 0 {
        assert(is_floor_sqrt(0, 0));
    } else {
        let m: int = n - 1;
        lemma_floor_sqrt_exists(m as nat);
        let r = choose|r: int| is_floor_sqrt(r, m);
        if (r + 1) * (r + 1) <= n {
            assert((r + 2) * (r + 2) > (r + 1) * (r + 1)) by (nonlinear_arith)
                requires
                    r >= 0,
            ;
            assert(is_floor_sqrt(r + 1, n as int));
        } else {
            assert(is_floor_sqrt(r, n as int));
        }
    }
}

/// Every non-negative integer has an integer square root.
pub proof fn lemma_floor_sqrt(n: int)
    requires
        n >= 0,
    ensures
        is_floor_sqrt(floor_sqrt(n), n),
{
    lemma_floor_sqrt_exists(n as nat);
}

/// The integer square root is the only `r` with `r * r <= n < (r + 1) * (r + 1)`.
pub proof fn lemma_floor_sqrt_unique(r: int, n: int)
    requires
        is_floor_sqrt(r, n),
    ensures
        r == floor_sqrt(n),
{
    lemma_floor_sqrt(n);
    let s = floor_sqrt(n);
    if r < s {
        assert((r + 1) * (r + 1) <= s * s) by (nonlinear_arith)
            requires
                0 <= r < s,
        ;
    } else if s < r {
        assert((s + 1) * (s + 1) <= r * r) by (nonlinear_arith)
            requires
                0 <= s < r,
        ;
    }
}

/// Computes the integer part of the square root by bisection.
pub fn isqrt(n: u128) -> (r: u64)
    ensures
        r == floor_sqrt(n as int),
        is_floor_sqrt(r as int, n as int),
{
    let mut lo: u128 = 0;
    let mut hi: u128 = 0x1_0000_0000_0000_0000;
    assert(n < hi * hi) by (nonlinear_arith)
        requires
            hi == 0x1_0000_0000_0000_0000,
            n <= u128::MAX,
    ;
    while hi - lo > 1
        invariant
            lo < hi <= 0x1_0000_0000_0000_0000,
            lo * lo <= n < hi * hi,
        decreases hi - lo,
    {
        let mid: u128 = lo + (hi - lo) / 2;
        let fits: bool = mid <= n / mid;
        proof {
            lemma_square_le_by_division(mid as int, n as int);
        }
        if fits {
            lo = mid;
        } else {
            hi = mid;
        }
    }
    proof {
        lemma_floor_sqrt_unique(lo as int, n as int);
    }
    lo as u64
}

/// For positive `m`, `m * m <= n` can be tested as `m <= n / m`.
proof fn lemma_square_le_by_division(m: int, n: int)
    requires
        m > 0,
        n >= 0,
    ensures
        (m <= n / m) <==> (m * m <= n),
{
    vstd::arithmetic::div_mod::lemma_fundamental_div_mod(n, m);
    vstd::arithmetic::div_mod::lemma_mod_bound(n, m);
    let q = n / m;
    if m <= q {
        assert(m * m <= m * q) by (nonlinear_arith)
            requires
                0 < m <= q,
        ;
    } else {
        assert(m * (q + 1) <= m * m) by (nonlinear_arith)
            requires
                0 < m,
                q + 1 <= m,
        ;
        assert(m * (q + 1) == m * q + m) by (nonlinear_arith);
    }
}

/// Computes the squared Euclidean distance between two points.
pub fn distance_squared(a: Point, b: Point) -> (d: u128)
    ensures
        d == dist_sq(a, b),
{
    let dx: i64 = b.x as i64 - a.x as i64;
    let dy: i64 = b.y as i64 - a.y as i64;
    let ax: u128 = if dx < 0 { (-dx) as u128 } else { dx as u128 };
    let ay: u128 = if dy < 0 { (-dy) as u128 } else { dy as u128 };
    assert(ax * ax == dx * dx) by (nonlinear_arith)
        requires
            ax == dx || ax == -dx,
    ;
    assert(ay * ay == dy * dy) by (nonlinear_arith)
        requires
            ay == dy || ay == -dy,
    ;
    assert(ax * ax <= 0xffff_ffff * 0xffff_ffff) by (nonlinear_arith)
        requires
            0 <= ax <= 0xffff_ffff,
    ;
    assert(ay * ay <= 0xffff_ffff * 0xffff_ffff) by (nonlinear_arith)
        requires
            0 <= ay <= 0xffff_ffff,
    ;
    ax * ax + ay * ay
}

} // verus!
