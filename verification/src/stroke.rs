//! Stroke interpolation: where the stamps of one pointer movement fall.
//!
//! A movement from `from` to `to` is walked in steps of a quarter of the
//! stamp diameter. With `d` the length of the movement and `s` the stamp
//! diameter, a stamp is put down at the start and after every step,
//! `k * s / 4` along the segment, and the walk ends with the first stamp from
//! which less than `s / 4` of the segment is left. Positions are grid points:
//! each coordinate of a stamp is the exact coordinate rounded toward `from`.

use vstd::prelude::*;
use crate::geometry::{abs, dist_sq, distance_squared, floor_sqrt, isqrt, lemma_floor_sqrt, Point};

verus! {

/// The number of whole quarter-stamp steps in a distance whose square is
/// `d2`: the integer part of `4 * sqrt(d2) / stamp`.
pub open spec fn quarter_steps(d2: int, stamp: int) -> int {
    floor_sqrt(16 * d2 / (stamp * stamp))
}

/// How far the `k`-th stamp lies from the start along one axis, where `c` is
/// the length of the movement along that axis: the integer part of
/// `k * (stamp / 4) * c / sqrt(d2)`.
pub open spec fn step_offset(k: int, stamp: int, c: int, d2: int) -> int {
    floor_sqrt((k * stamp * c) * (k * stamp * c) / (16 * d2))
}

/// The coordinate `m` units from `from` in the direction of `to`.
pub open spec fn toward(from: int, to: int, m: int) -> int {
    if to >= from {
        from + m
    } else {
        from - m
    }
}

/// The grid position of the `k`-th stamp of a walk from `from` to `to`.
pub open spec fn step_point(from: Point, to: Point, stamp: int, k: int) -> Point {
    let d2 = dist_sq(from, to);
    Point {
        x: toward(from.x as int, to.x as int, step_offset(k, stamp, abs(to.x - from.x), d2)) as i32,
        y: toward(from.y as int, to.y as int, step_offset(k, stamp, abs(to.y - from.y), d2)) as i32,
    }
}

/// The positions stamped by one movement of the pointer while drawing.
///
/// No movement stamps nothing. A movement shorter than a quarter of the stamp
/// diameter stamps once, at its end. Any other movement is walked from its
/// start in quarter-stamp steps: one stamp at the start and one after each
/// whole step that fits in it, so that less than a step is left behind the
/// last stamp.
pub open spec fn stroke_path(from: Point, to: Point, stamp: int) -> Seq<Point> {
    let d2 = dist_sq(from, to);
    if from == to {
        Seq::empty()
    } else if 16 * d2 < stamp * stamp {
        seq![to]
    } else {
        Seq::new(
            (quarter_steps(d2, stamp) + 1) as nat,
            |k: int| step_point(from, to, stamp, k),
        )
    }
}

/// Two points are the same exactly when their squared distance is zero.
pub proof fn lemma_dist_sq_zero(a: Point, b: Point)
    ensures
        dist_sq(a, b) >= 0,
        dist_sq(a, b) == 0 <==> a == b,
{
    let dx = b.x - a.x;
    let dy = b.y - a.y;
    assert(dx * dx >= 0 && (dx != 0 ==> dx * dx > 0)) by (nonlinear_arith);
    assert(dy * dy >= 0 && (dy != 0 ==> dy * dy > 0)) by (nonlinear_arith);
}

/// The squared distance between two points in range is at most `2^61`, and
/// neither axis contributes more than the whole.
pub proof fn lemma_dist_sq_bound(a: Point, b: Point)
    requires
        a.in_range(),
        b.in_range(),
    ensures
        dist_sq(a, b) <= 0x2000_0000_0000_0000,
        abs(b.x - a.x) * abs(b.x - a.x) <= dist_sq(a, b),
        abs(b.y - a.y) * abs(b.y - a.y) <= dist_sq(a, b),
        abs(b.x - a.x) <= 0x4000_0000,
        abs(b.y - a.y) <= 0x4000_0000,
{
    let dx = b.x - a.x;
    let dy = b.y - a.y;
    assert(dx * dx <= 0x4000_0000 * 0x4000_0000 && dx * dx >= 0) by (nonlinear_arith)
        requires
            -0x4000_0000 <= dx <= 0x4000_0000,
    ;
    assert(dy * dy <= 0x4000_0000 * 0x4000_0000 && dy * dy >= 0) by (nonlinear_arith)
        requires
            -0x4000_0000 <= dy <= 0x4000_0000,
    ;
    assert(abs(dx) * abs(dx) == dx * dx) by (nonlinear_arith)
        requires
            abs(dx) == dx || abs(dx) == -dx,
    ;
    assert(abs(dy) * abs(dy) == dy * dy) by (nonlinear_arith)
        requires
            abs(dy) == dy || abs(dy) == -dy,
    ;
}

/// A quotient is at least `m * m` exactly when the dividend is at least
/// `m * m` times the divisor, and below `m * m` likewise.
proof fn lemma_quotient_vs_square(num: int, den: int, m: int)
    requires
        num >= 0,
        den > 0,
    ensures
        (m * m <= num / den) <==> (m * m * den <= num),
{
    vstd::arithmetic::div_mod::lemma_fundamental_div_mod(num, den);
    vstd::arithmetic::div_mod::lemma_mod_bound(num, den);
    let q = num / den;
    let s = m * m;
    if s <= q {
        assert(s * den <= q * den) by (nonlinear_arith)
            requires
                s <= q,
                den > 0,
        ;
        assert(q * den == den * q) by (nonlinear_arith);
    } else {
        assert((q + 1) * den <= s * den) by (nonlinear_arith)
            requires
                q + 1 <= s,
                den > 0,
        ;
        assert((q + 1) * den == den * q + den) by (nonlinear_arith);
    }
}

/// The step count is the integer part of `4 * sqrt(d2) / stamp`: the largest
/// `n` with `(n * stamp)^2 <= 16 * d2`.
pub proof fn lemma_quarter_steps(d2: int, stamp: int)
    requires
        d2 >= 0,
        stamp > 0,
    ensures
        ({
            let n = quarter_steps(d2, stamp);
            &&& n >= 0
            &&& (n * stamp) * (n * stamp) <= 16 * d2
            &&& 16 * d2 < ((n + 1) * stamp) * ((n + 1) * stamp)
        }),
{
    let n = quarter_steps(d2, stamp);
    let s2 = stamp * stamp;
    assert(s2 > 0) by (nonlinear_arith)
        requires
            stamp > 0,
            s2 == stamp * stamp,
    ;
    vstd::arithmetic::div_mod::lemma_div_pos_is_pos(16 * d2, s2);
    lemma_floor_sqrt(16 * d2 / s2);
    lemma_quotient_vs_square(16 * d2, s2, n);
    lemma_quotient_vs_square(16 * d2, s2, n + 1);
    assert(n * n * s2 == (n * stamp) * (n * stamp)) by (nonlinear_arith)
        requires
            s2 == stamp * stamp,
    ;
    assert((n + 1) * (n + 1) * s2 == ((n + 1) * stamp) * ((n + 1) * stamp)) by (nonlinear_arith)
        requires
            s2 == stamp * stamp,
    ;
}

/// The offset of a stamp along an axis is the integer part of
/// `k * stamp * c / (4 * sqrt(d2))`: the largest `m` with
/// `(4 * m)^2 * d2 <= (k * stamp * c)^2`. When the `k`-th step is still on
/// the segment, the offset does not exceed the segment's extent `c`.
pub proof fn lemma_step_offset(k: int, stamp: int, c: int, d2: int)
    requires
        k >= 0,
        stamp > 0,
        c >= 0,
        d2 > 0,
    ensures
        ({
            let m = step_offset(k, stamp, c, d2);
            let t = k * stamp * c;
            &&& m >= 0
            &&& (4 * m) * (4 * m) * d2 <= t * t
            &&& t * t < (4 * (m + 1)) * (4 * (m + 1)) * d2
            &&& (k * stamp) * (k * stamp) <= 16 * d2 ==> m <= c
        }),
{
    let m = step_offset(k, stamp, c, d2);
    let t = k * stamp * c;
    let den = 16 * d2;
    assert(t * t >= 0) by (nonlinear_arith);
    vstd::arithmetic::div_mod::lemma_div_pos_is_pos(t * t, den);
    lemma_floor_sqrt(t * t / den);
    lemma_quotient_vs_square(t * t, den, m);
    lemma_quotient_vs_square(t * t, den, m + 1);
    assert(m * m * den == (4 * m) * (4 * m) * d2) by (nonlinear_arith)
        requires
            den == 16 * d2,
    ;
    assert((m + 1) * (m + 1) * den == (4 * (m + 1)) * (4 * (m + 1)) * d2) by (nonlinear_arith)
        requires
            den == 16 * d2,
    ;
    if (k * stamp) * (k * stamp) <= 16 * d2 {
        let ks = k * stamp;
        assert(t * t == (ks * ks) * (c * c)) by (nonlinear_arith)
            requires
                t == ks * c,
        ;
        assert((ks * ks) * (c * c) <= den * (c * c)) by (nonlinear_arith)
            requires
                ks * ks <= den,
                c * c >= 0,
        ;
        if m > c {
            assert((c + 1) * (c + 1) <= m * m) by (nonlinear_arith)
                requires
                    0 <= c < m,
            ;
            assert(((c + 1) * (c + 1)) * den <= (m * m) * den) by (nonlinear_arith)
                requires
                    (c + 1) * (c + 1) <= m * m,
                    den > 0,
            ;
            assert(den * (c * c) < ((c + 1) * (c + 1)) * den) by (nonlinear_arith)
                requires
                    c >= 0,
                    den > 0,
            ;
        }
    }
}

/// The least number of quarter-stamp steps that covers a distance whose
/// square is `d2`: `4 * sqrt(d2) / stamp` rounded up.
pub open spec fn ceil_quarter_steps(d2: int, stamp: int) -> int {
    let n = quarter_steps(d2, stamp);
    if (n * stamp) * (n * stamp) == 16 * d2 {
        n
    } else {
        n + 1
    }
}

/// The distance is a whole number of quarter-stamp steps.
pub open spec fn is_whole_steps(d2: int, stamp: int) -> bool {
    (quarter_steps(d2, stamp) * stamp) * (quarter_steps(d2, stamp) * stamp) == 16 * d2
}

/// `ceil_quarter_steps` is the smallest `c` with `(c * stamp)^2 >= 16 * d2`.
pub proof fn lemma_ceil_quarter_steps(d2: int, stamp: int)
    requires
        d2 >= 0,
        stamp > 0,
    ensures
        ({
            let c = ceil_quarter_steps(d2, stamp);
            &&& c >= 0
            &&& 16 * d2 <= (c * stamp) * (c * stamp)
            &&& c > 0 ==> ((c - 1) * stamp) * ((c - 1) * stamp) < 16 * d2
        }),
{
    lemma_quarter_steps(d2, stamp);
    let n = quarter_steps(d2, stamp);
    if (n * stamp) * (n * stamp) == 16 * d2 {
        if n > 0 {
            assert(((n - 1) * stamp) * ((n - 1) * stamp) < (n * stamp) * (n * stamp))
                by (nonlinear_arith)
                requires
                    n > 0,
                    stamp > 0,
            ;
        }
    }
}

/// A distance of exactly `c` quarter-stamp steps is a whole number of steps,
/// and its step count is `c`.
pub proof fn lemma_whole_steps(d2: int, stamp: int, c: int)
    requires
        stamp > 0,
        c >= 0,
        (c * stamp) * (c * stamp) == 16 * d2,
    ensures
        quarter_steps(d2, stamp) == c,
        is_whole_steps(d2, stamp),
{
    assert(d2 >= 0) by (nonlinear_arith)
        requires
            (c * stamp) * (c * stamp) == 16 * d2,
    ;
    lemma_quarter_steps(d2, stamp);
    let n = quarter_steps(d2, stamp);
    if n < c {
        assert(((n + 1) * stamp) * ((n + 1) * stamp) <= (c * stamp) * (c * stamp))
            by (nonlinear_arith)
            requires
                0 <= n < c,
                stamp > 0,
        ;
    } else if c < n {
        assert((c * stamp) * (c * stamp) < (n * stamp) * (n * stamp)) by (nonlinear_arith)
            requires
                0 <= c < n,
                stamp > 0,
        ;
    }
}

/// The number of stamps of a movement of length `d`. A movement of at least
/// a quarter of the stamp diameter gets one stamp at its start and one for
/// every whole quarter-stamp step that fits in it, at least two in all; a
/// shorter one gets exactly one stamp, at its end.
pub proof fn lemma_stamp_count_exact(from: Point, to: Point, stamp: int)
    requires
        stamp > 0,
        from != to,
    ensures
        stroke_path(from, to, stamp).len() == if 16 * dist_sq(from, to) >= stamp * stamp {
            quarter_steps(dist_sq(from, to), stamp) + 1
        } else {
            1
        },
        16 * dist_sq(from, to) >= stamp * stamp ==> quarter_steps(dist_sq(from, to), stamp) >= 1,
        16 * dist_sq(from, to) < stamp * stamp ==> stroke_path(from, to, stamp) == seq![to],
{
    let d2 = dist_sq(from, to);
    lemma_dist_sq_zero(from, to);
    lemma_quarter_steps(d2, stamp);
    let n = quarter_steps(d2, stamp);
    if 16 * d2 >= stamp * stamp && n < 1 {
        assert(((n + 1) * stamp) * ((n + 1) * stamp) == stamp * stamp) by (nonlinear_arith)
            requires
                n == 0,
        ;
    }
}

/// The number of stamps of a movement of length `d` is `d / (stamp / 4)`
/// rounded up when `d >= stamp / 4`, else exactly one. This holds of every
/// movement but those whose length is a whole number of quarter-stamp steps,
/// which get one stamp more: the one at their very end.
pub proof fn lemma_stamp_count(from: Point, to: Point, stamp: int)
    requires
        stamp > 0,
        from != to,
        !is_whole_steps(dist_sq(from, to), stamp),
    ensures
        stroke_path(from, to, stamp).len() == if 16 * dist_sq(from, to) >= stamp * stamp {
            ceil_quarter_steps(dist_sq(from, to), stamp)
        } else {
            1
        },
{
    lemma_stamp_count_exact(from, to, stamp);
}

/// A movement whose length is a whole number `c` of quarter-stamp steps, at
/// least one, gets `c + 1` stamps, the last of them at its end.
pub proof fn lemma_stamp_count_whole(from: Point, to: Point, stamp: int, c: int)
    requires
        stamp > 0,
        c >= 1,
        (c * stamp) * (c * stamp) == 16 * dist_sq(from, to),
    ensures
        stroke_path(from, to, stamp).len() == c + 1,
        stroke_path(from, to, stamp)[c] == to,
{
    let d2 = dist_sq(from, to);
    lemma_whole_steps(d2, stamp, c);
    assert(16 * d2 >= stamp * stamp) by (nonlinear_arith)
        requires
            (c * stamp) * (c * stamp) == 16 * d2,
            c >= 1,
            stamp > 0,
    ;
    lemma_dist_sq_zero(from, to);
    assert(from != to) by {
        assert(stamp * stamp > 0) by (nonlinear_arith)
            requires
                stamp > 0,
        ;
    }
    lemma_end_point(from, to, stamp, c);
}

/// The stamp that lies the whole length of the movement from its start lies
/// at its end.
proof fn lemma_end_point(from: Point, to: Point, stamp: int, c: int)
    requires
        stamp > 0,
        c >= 1,
        (c * stamp) * (c * stamp) == 16 * dist_sq(from, to),
    ensures
        step_point(from, to, stamp, c) == to,
{
    let d2 = dist_sq(from, to);
    lemma_end_offset(c, stamp, abs(to.x - from.x), d2);
    lemma_end_offset(c, stamp, abs(to.y - from.y), d2);
}

/// Along an axis, the offset of the stamp at the whole length is the whole
/// extent.
proof fn lemma_end_offset(c: int, stamp: int, extent: int, d2: int)
    requires
        stamp > 0,
        c >= 1,
        extent >= 0,
        (c * stamp) * (c * stamp) == 16 * d2,
    ensures
        step_offset(c, stamp, extent, d2) == extent,
{
    let t = c * stamp * extent;
    let den = 16 * d2;
    assert(den > 0) by (nonlinear_arith)
        requires
            den == (c * stamp) * (c * stamp),
            c >= 1,
            stamp > 0,
    ;
    assert(t * t == (extent * extent) * den) by (nonlinear_arith)
        requires
            t == c * stamp * extent,
            den == (c * stamp) * (c * stamp),
    ;
    vstd::arithmetic::div_mod::lemma_div_multiples_vanish(extent * extent, den);
    assert((extent * extent) * den == den * (extent * extent)) by (nonlinear_arith);
    assert(t * t / den == extent * extent);
    assert((extent + 1) * (extent + 1) > extent * extent) by (nonlinear_arith)
        requires
            extent >= 0,
    ;
    crate::geometry::lemma_floor_sqrt_unique(extent, extent * extent);
}

/// Computes the offset of the `k`-th stamp along one axis.
fn axis_offset(k: u64, stamp: u32, c: u32, d2: u128) -> (m: u32)
    requires
        stamp > 0,
        0 < d2 <= 0x2000_0000_0000_0000,
        c <= 0x4000_0000,
        (k * stamp) * (k * stamp) <= 16 * d2,
    ensures
        m == step_offset(k as int, stamp as int, c as int, d2 as int),
        m <= c,
{
    assert(k * stamp <= 0xffff_ffff_ffff_ffff * 0xffff_ffff) by (nonlinear_arith)
        requires
            0 <= k <= 0xffff_ffff_ffff_ffff,
            0 <= stamp <= 0xffff_ffff,
    ;
    let ks: u128 = (k as u128) * (stamp as u128);
    assert(ks < 0x2_0000_0000) by (nonlinear_arith)
        requires
            ks >= 0,
            ks * ks <= 16 * 0x2000_0000_0000_0000,
    ;
    assert(ks * c <= 0x2_0000_0000 * 0x4000_0000) by (nonlinear_arith)
        requires
            0 <= ks < 0x2_0000_0000,
            0 <= c <= 0x4000_0000,
    ;
    let t: u128 = ks * (c as u128);
    assert(t * t <= 0x8000_0000_0000_0000 * 0x8000_0000_0000_0000) by (nonlinear_arith)
        requires
            0 <= t <= 0x8000_0000_0000_0000,
    ;
    let q: u128 = t * t / (16 * d2);
    let m: u64 = isqrt(q);
    proof {
        lemma_step_offset(k as int, stamp as int, c as int, d2 as int);
    }
    m as u32
}

/// Moves `m` units from `from` in the direction of `to` along one axis.
fn step_toward(from: i32, to: i32, m: u32) -> (v: i32)
    requires
        m <= abs(to - from),
    ensures
        v == toward(from as int, to as int, m as int),
{
    if to >= from {
        (from as i64 + m as i64) as i32
    } else {
        (from as i64 - m as i64) as i32
    }
}

/// Computes the positions stamped by one movement of the pointer.
pub fn stroke_points(from: Point, to: Point, stamp: u32) -> (pts: Vec<Point>)
    requires
        from.in_range(),
        to.in_range(),
        stamp > 0,
    ensures
        pts@ == stroke_path(from, to, stamp as int),
{
    let d2: u128 = distance_squared(from, to);
    let mut pts: Vec<Point> = Vec::new();
    proof {
        lemma_dist_sq_zero(from, to);
        lemma_dist_sq_bound(from, to);
    }
    if d2 == 0 {
        assert(pts@ =~= stroke_path(from, to, stamp as int));
        return pts;
    }
    assert(0 < stamp * stamp <= 0xffff_ffff * 0xffff_ffff) by (nonlinear_arith)
        requires
            0 < stamp <= 0xffff_ffff,
    ;
    let s2: u128 = (stamp as u128) * (stamp as u128);
    if 16 * d2 < s2 {
        pts.push(to);
        assert(pts@ =~= stroke_path(from, to, stamp as int));
        return pts;
    }
    let n: u64 = isqrt(16 * d2 / s2);
    let cx: u32 = if to.x >= from.x {
        (to.x as i64 - from.x as i64) as u32
    } else {
        (from.x as i64 - to.x as i64) as u32
    };
    let cy: u32 = if to.y >= from.y {
        (to.y as i64 - from.y as i64) as u32
    } else {
        (from.y as i64 - to.y as i64) as u32
    };
    proof {
        lemma_quarter_steps(d2 as int, stamp as int);
        assert(n <= 0x2_0000_0000) by (nonlinear_arith)
            requires
                n >= 0,
                stamp >= 1,
                (n * stamp) * (n * stamp) <= 16 * 0x2000_0000_0000_0000,
        ;
    }
    let mut k: u64 = 0;
    while k <= n
        invariant
            k <= n + 1,
            n <= 0x2_0000_0000,
            stamp > 0,
            0 < d2 <= 0x2000_0000_0000_0000,
            d2 == dist_sq(from, to),
            n == quarter_steps(d2 as int, stamp as int),
            (n * stamp) * (n * stamp) <= 16 * d2,
            cx == abs(to.x - from.x),
            cy == abs(to.y - from.y),
            cx <= 0x4000_0000,
            cy <= 0x4000_0000,
            pts@.len() == k,
            forall|i: int| 0 <= i < k ==> pts@[i] == step_point(from, to, stamp as int, i),
        decreases n + 1 - k,
    {
        assert((k * stamp) * (k * stamp) <= (n * stamp) * (n * stamp)) by (nonlinear_arith)
            requires
                0 <= k <= n,
                stamp > 0,
        ;
        let mx: u32 = axis_offset(k, stamp, cx, d2);
        let my: u32 = axis_offset(k, stamp, cy, d2);
        let p = Point { x: step_toward(from.x, to.x, mx), y: step_toward(from.y, to.y, my) };
        pts.push(p);
        k = k + 1;
    }
    assert(pts@ =~= stroke_path(from, to, stamp as int));
    pts
}

} // verus!
