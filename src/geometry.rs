//! Plane geometry on integer coordinates.
//!
//! Positions and velocities are held in tenths of a pixel (a velocity in tenths
//! of a pixel per second).

use vstd::prelude::*;
use vstd::arithmetic::div_mod::{lemma_div_is_ordered, lemma_div_multiples_vanish};

verus! {

/// Largest magnitude a coordinate or velocity component may have
/// (2^18 tenths of a pixel: some twenty-six thousand pixels).
pub const COORD_LIMIT: i64 = 262_144;

/// `r` is the integer square root of `n`, rounded down.
pub open spec fn is_floor_sqrt(n: int, r: int) -> bool {
    0 <= r && r * r <= n && n < (r + 1) * (r + 1)
}

/// The integer square root of `n`, rounded down.
pub open spec fn floor_sqrt(n: int) -> int {
    choose|r: int| is_floor_sqrt(n, r)
}

/// Two roots of the same number coincide.
pub proof fn lemma_floor_sqrt_unique(n: int, r1: int, r2: int)
    requires
        is_floor_sqrt(n, r1),
        is_floor_sqrt(n, r2),
    ensures
        r1 == r2,
{
    if r1 < r2 {
        assert((r1 + 1) * (r1 + 1) <= r2 * r2) by (nonlinear_arith)
            requires
                0 <= r1 < r2,
        ;
    } else if r2 < r1 {
        assert((r2 + 1) * (r2 + 1) <= r1 * r1) by (nonlinear_arith)
            requires
                0 <= r2 < r1,
        ;
    }
}

/// Every natural number has an integer square root.
pub proof fn lemma_floor_sqrt_exists(n: int)
    requires
        n >= 0,
    ensures
        is_floor_sqrt(n, floor_sqrt(n)),
    decreases n,
{
    if n == 0 {
        assert(is_floor_sqrt(0, 0));
    } else {
        lemma_floor_sqrt_exists(n - 1);
        let r = floor_sqrt(n - 1);
        if (r + 1) * (r + 1) <= n {
            assert(n < (r + 2) * (r + 2)) by (nonlinear_arith)
                requires
                    n - 1 < (r + 1) * (r + 1),
                    r >= 0,
            ;
            assert(is_floor_sqrt(n, r + 1));
        } else {
            assert(is_floor_sqrt(n, r));
        }
    }
}

/// Once a root is known, `floor_sqrt` names it.
pub proof fn lemma_floor_sqrt_is(n: int, r: int)
    requires
        is_floor_sqrt(n, r),
    ensures
        floor_sqrt(n) == r,
{
    let c = floor_sqrt(n);
    assert(is_floor_sqrt(n, c));
    lemma_floor_sqrt_unique(n, r, c);
}

/// Integer square root, rounded down, by bisection.
pub fn isqrt(n: u128) -> (r: u128)
    ensures
        r == floor_sqrt(n as int),
        is_floor_sqrt(n as int, r as int),
{
    // lo * lo <= n < hi * hi
    let mut lo: u128 = 0;
    let mut hi: u128 = if n < 0x1_0000_0000_0000_0000 { 0x1_0000_0000 } else { 0x1_0000_0000_0000_0000 };
    assert(n < hi * hi) by (nonlinear_arith)
        requires
            hi == 0x1_0000_0000 && n < 0x1_0000_0000_0000_0000 || hi == 0x1_0000_0000_0000_0000,
            n <= u128::MAX,
    ;
    while hi - lo > 1
        invariant
            lo < hi <= 0x1_0000_0000_0000_0000,
            lo * lo <= n,
            n < hi * hi,
        decreases hi - lo,
    {
        let mid = lo + (hi - lo) / 2;
        assert(mid * mid <= 0xFFFF_FFFF_FFFF_FFFF * 0xFFFF_FFFF_FFFF_FFFF) by (nonlinear_arith)
            requires
                mid <= 0xFFFF_FFFF_FFFF_FFFF,
        ;
        if mid * mid <= n {
            lo = mid;
        } else {
            hi = mid;
        }
    }
    assert(hi == lo + 1);
    proof {
        lemma_floor_sqrt_is(n as int, lo as int);
    }
    lo
}


/// A point or a vector of the plane.
#[derive(Clone, Copy, Debug, PartialEq, Eq, Structural)]
pub struct Point {
    pub x: i64,
    pub y: i64,
}

impl Point {
    /// Both components lie within `COORD_LIMIT`.
    pub open spec fn in_bounds(self) -> bool {
        -COORD_LIMIT <= self.x <= COORD_LIMIT && -COORD_LIMIT <= self.y <= COORD_LIMIT
    }

    pub fn new(x: i64, y: i64) -> (r: Point)
        ensures
            r.x == x && r.y == y,
    {
        Point { x, y }
    }

    pub fn zero() -> (r: Point)
        ensures
            r.x == 0 && r.y == 0,
    {
        Point { x: 0, y: 0 }
    }
}

/// Squared length of the vector `(x, y)`.
pub open spec fn norm_sq(x: int, y: int) -> int {
    x * x + y * y
}

/// Division rounded toward zero, by a positive divisor.
pub open spec fn div_toward_zero(a: int, d: int) -> int {
    if a >= 0 {
        a / d
    } else {
        -((-a) / d)
    }
}

/// Largest magnitude of a component handed to `scale_to`.
pub const DIR_LIMIT: i128 = 0x4000_0000_0000_0000;

/// Short vectors are lengthened by `PRESCALE` before their length is taken,
/// so that the rounding of the root costs little precision.
pub const PRESCALE: i128 = 0x10_0000;

/// Components up to this magnitude count as short.
pub const SHORT_LIMIT: i128 = 0x100_0000_0000;

pub open spec fn is_short(dx: int, dy: int) -> bool {
    -SHORT_LIMIT <= dx <= SHORT_LIMIT && -SHORT_LIMIT <= dy <= SHORT_LIMIT
}

/// The vector whose length is taken: `(dx, dy)`, lengthened when short.
pub open spec fn lengthened(dx: int, dy: int) -> (int, int) {
    if is_short(dx, dy) {
        (dx * PRESCALE, dy * PRESCALE)
    } else {
        (dx, dy)
    }
}

/// The integer square root of `n`, rounded up.
pub open spec fn ceil_sqrt(n: int) -> int {
    let f = floor_sqrt(n);
    if f * f == n {
        f
    } else {
        f + 1
    }
}

/// The vector `(dx, dy)` resized to length `speed`: its components over its
/// length rounded up, times `speed`, each rounded toward zero, so the result
/// is never longer than `speed`; the zero vector stays zero.
pub open spec fn scaled(dx: int, dy: int, speed: int) -> (int, int) {
    let e = lengthened(dx, dy);
    let len = ceil_sqrt(norm_sq(e.0, e.1));
    if len == 0 {
        (0, 0)
    } else {
        (div_toward_zero(e.0 * speed, len), div_toward_zero(e.1 * speed, len))
    }
}

/// A component is never longer than the whole vector.
proof fn lemma_component_le_len(c: int, other: int, len: int)
    requires
        is_floor_sqrt(norm_sq(c, other), len),
    ensures
        -len <= c <= len,
{
    if c > len {
        assert(c * c >= (len + 1) * (len + 1)) by (nonlinear_arith)
            requires
                c >= len + 1,
                len >= 0,
        ;
        assert(other * other >= 0) by (nonlinear_arith);
    } else if c < -len {
        assert(c * c >= (len + 1) * (len + 1)) by (nonlinear_arith)
            requires
                -c >= len + 1,
                len >= 0,
        ;
        assert(other * other >= 0) by (nonlinear_arith);
    }
}

/// `c * speed / len`, rounded toward zero, for `|c| <= len`.
fn scale_component(c: i128, speed: i64, len: u128) -> (r: i64)
    requires
        -DIR_LIMIT <= c <= DIR_LIMIT,
        0 <= speed <= COORD_LIMIT,
        0 < len,
        -(len as int) <= c <= len,
    ensures
        r == div_toward_zero(c * speed, len as int),
        -speed <= r <= speed,
        r * r * len * len <= c * c * speed * speed,
{
    let mag: u128 = if c >= 0 { c as u128 } else { (-c) as u128 };
    assert(mag * speed <= len * speed) by (nonlinear_arith)
        requires
            mag <= len,
            speed >= 0,
    ;
    assert(mag * speed <= DIR_LIMIT * COORD_LIMIT) by (nonlinear_arith)
        requires
            mag <= DIR_LIMIT,
            0 <= speed <= COORD_LIMIT,
    ;
    let q: u128 = (mag * (speed as u128)) / len;
    proof {
        lemma_div_is_ordered(mag * speed, len * speed, len as int);
        lemma_div_multiples_vanish(speed as int, len as int);
        assert(len * speed == speed * len) by (nonlinear_arith);
        let qq = q as int;
        let m = (mag * speed) as int;
        assert(qq * len <= m) by (nonlinear_arith)
            requires
                qq == m / (len as int),
                len > 0,
                m >= 0,
        ;
        assert(qq * qq * len * len <= m * m) by (nonlinear_arith)
            requires
                0 <= qq * len <= m,
                qq >= 0,
                len > 0,
        ;
        assert(m * m == c * c * speed * speed) by (nonlinear_arith)
            requires
                m == mag * speed,
                mag == c || mag == -c,
        ;
    }
    let r: i64 = if c >= 0 {
        q as i64
    } else {
        assert(c * speed == -(mag * speed)) by (nonlinear_arith)
            requires
                mag == -c,
        ;
        -(q as i64)
    };
    assert(r * r * len * len == q * q * len * len) by (nonlinear_arith)
        requires
            r == q || r == -q,
    ;
    r
}

/// Resizes `(dx, dy)` to length `speed` at most: the direction of a vector,
/// times a speed.
pub fn scale_to(dx: i128, dy: i128, speed: i64) -> (r: Point)
    requires
        -DIR_LIMIT <= dx <= DIR_LIMIT,
        -DIR_LIMIT <= dy <= DIR_LIMIT,
        0 <= speed <= COORD_LIMIT,
    ensures
        (r.x as int, r.y as int) == scaled(dx as int, dy as int, speed as int),
        r.in_bounds(),
        -speed <= r.x <= speed,
        -speed <= r.y <= speed,
        norm_sq(r.x as int, r.y as int) <= speed * speed,
{
    assert(speed * speed >= 0) by (nonlinear_arith);
    let short = -SHORT_LIMIT <= dx && dx <= SHORT_LIMIT && -SHORT_LIMIT <= dy && dy <= SHORT_LIMIT;
    let (ex, ey) = if short { (dx * PRESCALE, dy * PRESCALE) } else { (dx, dy) };
    assert(ex * ex <= DIR_LIMIT * DIR_LIMIT && ey * ey <= DIR_LIMIT * DIR_LIMIT) by (nonlinear_arith)
        requires
            -DIR_LIMIT <= ex <= DIR_LIMIT,
            -DIR_LIMIT <= ey <= DIR_LIMIT,
    ;
    assert(ex * ex >= 0 && ey * ey >= 0) by (nonlinear_arith);
    let n: u128 = ((ex * ex) as u128) + ((ey * ey) as u128);
    let f = isqrt(n);
    assert(f < 0x8000_0000_0000_0000) by (nonlinear_arith)
        requires
            f * f <= n,
            n <= 2 * DIR_LIMIT * DIR_LIMIT,
    ;
    let len = if f * f == n { f } else { f + 1 };
    if len == 0 {
        assert(norm_sq(0, 0) == 0) by (nonlinear_arith);
        Point { x: 0, y: 0 }
    } else {
        proof {
            lemma_component_le_len(ex as int, ey as int, f as int);
            assert(norm_sq(ey as int, ex as int) == norm_sq(ex as int, ey as int));
            lemma_component_le_len(ey as int, ex as int, f as int);
            if f * f != n {
                assert(len * len == (f + 1) * (f + 1));
            }
        }
        let x = scale_component(ex, speed, len);
        let y = scale_component(ey, speed, len);
        proof {
            let (xi, yi, li, si) = (x as int, y as int, len as int, speed as int);
            assert((xi * xi + yi * yi) * (li * li) <= (si * si) * (li * li)) by (nonlinear_arith)
                requires
                    xi * xi * li * li <= ex * ex * si * si,
                    yi * yi * li * li <= ey * ey * si * si,
                    ex * ex + ey * ey <= li * li,
                    si >= 0,
            ;
            assert(xi * xi + yi * yi <= si * si) by (nonlinear_arith)
                requires
                    (xi * xi + yi * yi) * (li * li) <= (si * si) * (li * li),
                    li > 0,
            ;
            assert(norm_sq(x as int, y as int) <= speed * speed);
        }
        Point { x, y }
    }
}

/// One step of smoothing from `v` toward `target`: nine tenths of `v` and
/// one tenth of `target`, rounded toward zero.
pub open spec fn smoothed(v: int, target: int) -> int {
    div_toward_zero(9 * v + target, 10)
}

fn smooth_component(v: i64, target: i64) -> (r: i64)
    requires
        -COORD_LIMIT <= v <= COORD_LIMIT,
        -COORD_LIMIT <= target <= COORD_LIMIT,
    ensures
        r == smoothed(v as int, target as int),
        -COORD_LIMIT <= r <= COORD_LIMIT,
{
    let sum = 9 * v + target;
    if sum >= 0 {
        sum / 10
    } else {
        -((-sum) / 10)
    }
}

/// Rounding toward zero after dividing by ten never lengthens: `100 w^2 <= a^2`.
proof fn lemma_tenth_square(a: int)
    ensures
        100 * div_toward_zero(a, 10) * div_toward_zero(a, 10) <= a * a,
{
    let w = div_toward_zero(a, 10);
    let m = if a >= 0 { a } else { -a };
    let q = m / 10;
    assert(w == q || w == -q);
    assert(0 <= 10 * q <= m);
    assert(100 * w * w <= a * a) by (nonlinear_arith)
        requires
            0 <= 10 * q <= m,
            w == q || w == -q,
            m == a || m == -a,
    ;
}

/// Smoothing toward a velocity no faster than `s`, from one no faster than
/// `s`, gives one no faster than `s`.
pub proof fn lemma_smoothing_keeps_speed(v: Point, t: Point, s: int)
    requires
        s >= 0,
        norm_sq(v.x as int, v.y as int) <= s * s,
        norm_sq(t.x as int, t.y as int) <= s * s,
    ensures
        norm_sq(smoothed(v.x as int, t.x as int), smoothed(v.y as int, t.y as int)) <= s * s,
{
    let (vx, vy, tx, ty) = (v.x as int, v.y as int, t.x as int, t.y as int);
    let dot = vx * tx + vy * ty;
    assert(2 * dot <= (vx * vx + vy * vy) + (tx * tx + ty * ty)) by (nonlinear_arith)
        requires
            dot == vx * tx + vy * ty,
    ;
    assert(s * s >= 0) by (nonlinear_arith);
    let ax = 9 * vx + tx;
    let ay = 9 * vy + ty;
    assert(ax * ax + ay * ay == 81 * (vx * vx + vy * vy) + 18 * dot + (tx * tx + ty * ty)) by (nonlinear_arith)
        requires
            ax == 9 * vx + tx,
            ay == 9 * vy + ty,
            dot == vx * tx + vy * ty,
    ;
    lemma_tenth_square(ax);
    lemma_tenth_square(ay);
    let wx = div_toward_zero(ax, 10);
    let wy = div_toward_zero(ay, 10);
    assert(100 * (wx * wx + wy * wy) <= 100 * (s * s)) by (nonlinear_arith)
        requires
            100 * wx * wx <= ax * ax,
            100 * wy * wy <= ay * ay,
            ax * ax + ay * ay <= 100 * (s * s),
    ;
}

/// Moves the velocity `v` a tenth of the way toward `target`.
pub fn smooth_toward(v: Point, target: Point) -> (r: Point)
    requires
        v.in_bounds(),
        target.in_bounds(),
    ensures
        r.x == smoothed(v.x as int, target.x as int),
        r.y == smoothed(v.y as int, target.y as int),
        r.in_bounds(),
{
    Point { x: smooth_component(v.x, target.x), y: smooth_component(v.y, target.y) }
}

/// Whether `a` and `b` lie closer than `reach` to each other.
pub fn within_reach(a: Point, b: Point, reach: i64) -> (r: bool)
    requires
        a.in_bounds(),
        b.in_bounds(),
        0 <= reach <= 4 * COORD_LIMIT,
    ensures
        r == (norm_sq(a.x - b.x, a.y - b.y) < reach * reach),
{
    let dx = (a.x as i128) - (b.x as i128);
    let dy = (a.y as i128) - (b.y as i128);
    assert(dx * dx <= 4 * COORD_LIMIT * COORD_LIMIT && dy * dy <= 4 * COORD_LIMIT * COORD_LIMIT) by (nonlinear_arith)
        requires
            -2 * COORD_LIMIT <= dx <= 2 * COORD_LIMIT,
            -2 * COORD_LIMIT <= dy <= 2 * COORD_LIMIT,
    ;
    assert(reach * reach <= 16 * COORD_LIMIT * COORD_LIMIT) by (nonlinear_arith)
        requires
            0 <= reach <= 4 * COORD_LIMIT,
    ;
    assert(dx * dx >= 0 && dy * dy >= 0) by (nonlinear_arith);
    let rr = (reach as i128) * (reach as i128);
    dx * dx + dy * dy < rr
}

} // verus!
