//! Experience rewards: splitting a total into orbs, scattering them, and
//! gathering the ones the player touches.
//!
//! Experience is held in thousandths of a point.

use vstd::prelude::*;
use vstd::arithmetic::div_mod::{lemma_div_is_ordered, lemma_div_multiples_vanish};
use vstd::arithmetic::mul::lemma_mul_inequality;
use crate::geometry::{Point, COORD_LIMIT, within_reach, norm_sq, isqrt, floor_sqrt, scale_to, scaled};
use crate::loot::{XPBar, saturating_add};
use crate::chance::random_in;

verus! {

/// Orbs a defeated enemy leaves.
pub const ORB_COUNT: usize = 4;

/// Experience a defeated enemy is worth, in thousandths (five points).
pub const ENEMY_REWARD: u64 = 5000;

/// Largest total that can be split.
pub const MAX_TOTAL: u64 = 0x100_0000_0000;

/// Largest weight of one share.
pub const MAX_WEIGHT: u64 = 1_000_000;

/// How far an orb may land from where it was dropped, on each axis, in
/// tenths of a pixel (thirty pixels, exclusive).
pub const ORB_JITTER: i64 = 300;

/// A drop of experience lying in the world.
#[derive(Clone, Copy, Debug, PartialEq, Eq, Structural)]
pub struct XPOrb {
    /// In thousandths of a point.
    pub value: u64,
    pub position: Point,
}

/// Sum of the first `k` values of `s`.
pub open spec fn prefix_sum(s: Seq<u64>, k: int) -> int
    decreases k,
{
    if k <= 0 {
        0
    } else {
        prefix_sum(s, k - 1) + s[k - 1]
    }
}

pub open spec fn total_of(s: Seq<u64>) -> int {
    prefix_sum(s, s.len() as int)
}

/// Share `i` of `total` split by `weights`: one unit each, and the rest
/// apportioned by the weights, the cumulative amounts rounded down.
pub open spec fn share(total: int, weights: Seq<u64>, i: int) -> int {
    let rest = total - weights.len();
    let w = total_of(weights);
    1 + rest * prefix_sum(weights, i + 1) / w - rest * prefix_sum(weights, i) / w
}

pub open spec fn valid_weights(weights: Seq<u64>) -> bool {
    forall|i: int| 0 <= i < weights.len() ==> 1 <= #[trigger] weights[i] <= MAX_WEIGHT
}

proof fn lemma_prefix_sum_bounds(s: Seq<u64>, k: int)
    requires
        valid_weights(s),
        0 <= k <= s.len(),
    ensures
        k <= prefix_sum(s, k) <= k * MAX_WEIGHT,
    decreases k,
{
    if k > 0 {
        lemma_prefix_sum_bounds(s, k - 1);
    }
}

proof fn lemma_prefix_sum_grows(s: Seq<u64>, j: int, k: int)
    requires
        valid_weights(s),
        0 <= j <= k <= s.len(),
    ensures
        prefix_sum(s, j) <= prefix_sum(s, k),
    decreases k - j,
{
    if j < k {
        lemma_prefix_sum_grows(s, j, k - 1);
    }
}

/// Splits `total` into one positive share for each weight, in proportion to
/// the weights; the shares add up to `total` exactly.
pub fn split_by_weights(total: u64, weights: &Vec<u64>) -> (shares: Vec<u64>)
    requires
        1 <= weights@.len() <= 16,
        valid_weights(weights@),
        weights@.len() <= total <= MAX_TOTAL,
    ensures
        shares@.len() == weights@.len(),
        forall|i: int| 0 <= i < shares@.len() ==> #[trigger] shares@[i] == share(total as int, weights@, i),
        forall|i: int| 0 <= i < shares@.len() ==> #[trigger] shares@[i] >= 1,
        total_of(shares@) == total,
{
    let n = weights.len();
    let ghost ws = weights@;
    let mut w: u64 = 0;
    let mut k: usize = 0;
    while k < n
        invariant
            0 <= k <= n,
            n == ws.len(),
            ws == weights@,
            valid_weights(ws),
            n <= 16,
            w == prefix_sum(ws, k as int),
            w <= k * MAX_WEIGHT,
        decreases n - k,
    {
        w = w + weights[k];
        k = k + 1;
    }
    proof {
        lemma_prefix_sum_bounds(ws, n as int);
    }
    let rest = total - n as u64;
    let mut shares: Vec<u64> = Vec::new();
    let mut before: u64 = 0;
    let mut cum: u64 = 0;
    let mut i: usize = 0;
    while i < n
        invariant
            0 <= i <= n,
            n == ws.len(),
            ws == weights@,
            valid_weights(ws),
            n <= 16,
            w == total_of(ws),
            n <= w <= n * MAX_WEIGHT,
            rest == total - n,
            rest <= MAX_TOTAL,
            cum == prefix_sum(ws, i as int),
            before == (rest as int) * (cum as int) / (w as int),
            before <= rest,
            shares@.len() == i,
            forall|j: int| 0 <= j < i ==> #[trigger] shares@[j] == share(total as int, ws, j),
            forall|j: int| 0 <= j < i ==> #[trigger] shares@[j] >= 1,
            total_of(shares@) == i + before,
        decreases n - i,
    {
        proof {
            lemma_prefix_sum_grows(ws, i + 1, n as int);
        }
        let next = cum + weights[i];
        proof {
            lemma_mul_inequality(next as int, w as int, rest as int);
            lemma_mul_inequality(cum as int, next as int, rest as int);
            assert(rest * w <= MAX_TOTAL * (16 * MAX_WEIGHT)) by (nonlinear_arith)
                requires
                    rest <= MAX_TOTAL,
                    w <= 16 * MAX_WEIGHT,
            ;
            lemma_div_is_ordered(rest * next, rest * w, w as int);
            lemma_div_is_ordered(rest * cum, rest * next, w as int);
            lemma_div_multiples_vanish(rest as int, w as int);
            assert(w * rest == rest * w) by (nonlinear_arith);
        }
        let after = ((rest as u128) * (next as u128) / (w as u128)) as u64;
        let s = 1 + after - before;
        proof {
            assert(shares@.push(s).subrange(0, i as int) == shares@);
            assert(prefix_sum(shares@.push(s), i as int) == prefix_sum(shares@, i as int)) by {
                lemma_prefix_sum_push(shares@, s, i as int);
            }
        }
        shares.push(s);
        before = after;
        cum = next;
        i = i + 1;
    }
    proof {
        lemma_div_multiples_vanish(rest as int, w as int);
        assert(w * rest == rest * w) by (nonlinear_arith);
    }
    shares
}

proof fn lemma_prefix_sum_push(s: Seq<u64>, x: u64, k: int)
    requires
        0 <= k <= s.len(),
    ensures
        prefix_sum(s.push(x), k) == prefix_sum(s, k),
    decreases k,
{
    if k > 0 {
        lemma_prefix_sum_push(s, x, k - 1);
    }
}


pub open spec fn values_of(orbs: Seq<XPOrb>) -> Seq<u64> {
    orbs.map_values(|o: XPOrb| o.value)
}

/// `p + off` on one axis, kept within `COORD_LIMIT`.
pub open spec fn jittered(p: int, off: int) -> int {
    if p + off > COORD_LIMIT {
        COORD_LIMIT as int
    } else if p + off < -COORD_LIMIT {
        -COORD_LIMIT
    } else {
        p + off
    }
}

fn jitter_axis(p: i64, off: i64) -> (r: i64)
    requires
        -COORD_LIMIT <= p <= COORD_LIMIT,
        -ORB_JITTER <= off <= ORB_JITTER,
    ensures
        r == jittered(p as int, off as int),
{
    let q = p + off;
    if q > COORD_LIMIT {
        COORD_LIMIT
    } else if q < -COORD_LIMIT {
        -COORD_LIMIT
    } else {
        q
    }
}

/// The orbs that `total` splits into by `weights`, orb `i` dropped at
/// `position` moved by `offsets[i]`.
pub fn scatter_orbs(total: u64, position: Point, weights: &Vec<u64>, offsets: &Vec<Point>) -> (orbs: Vec<XPOrb>)
    requires
        1 <= weights@.len() <= 16,
        valid_weights(weights@),
        weights@.len() <= total <= MAX_TOTAL,
        offsets@.len() == weights@.len(),
        position.in_bounds(),
        forall|i: int| 0 <= i < offsets@.len() ==> -ORB_JITTER <= (#[trigger] offsets@[i]).x <= ORB_JITTER
            && -ORB_JITTER <= offsets@[i].y <= ORB_JITTER,
    ensures
        orbs@.len() == weights@.len(),
        forall|i: int| 0 <= i < orbs@.len() ==> (#[trigger] orbs@[i]).value == share(total as int, weights@, i)
            && orbs@[i].value >= 1
            && orbs@[i].position.x == jittered(position.x as int, offsets@[i].x as int)
            && orbs@[i].position.y == jittered(position.y as int, offsets@[i].y as int)
            && orbs@[i].position.in_bounds(),
        total_of(values_of(orbs@)) == total,
{
    let shares = split_by_weights(total, weights);
    let mut orbs: Vec<XPOrb> = Vec::new();
    let mut i: usize = 0;
    while i < shares.len()
        invariant
            0 <= i <= shares@.len(),
            shares@.len() == weights@.len(),
            offsets@.len() == weights@.len(),
            position.in_bounds(),
            forall|j: int| 0 <= j < offsets@.len() ==> -ORB_JITTER <= (#[trigger] offsets@[j]).x <= ORB_JITTER
                && -ORB_JITTER <= offsets@[j].y <= ORB_JITTER,
            orbs@.len() == i,
            forall|j: int| 0 <= j < i ==> (#[trigger] orbs@[j]).value == shares@[j]
                && orbs@[j].position.x == jittered(position.x as int, offsets@[j].x as int)
                && orbs@[j].position.y == jittered(position.y as int, offsets@[j].y as int),
        decreases shares@.len() - i,
    {
        let off = offsets[i];
        orbs.push(XPOrb {
            value: shares[i],
            position: Point { x: jitter_axis(position.x, off.x), y: jitter_axis(position.y, off.y) },
        });
        i = i + 1;
    }
    assert(values_of(orbs@) =~= shares@);
    orbs
}

/// Splits `total` into `ORB_COUNT` orbs of random positive value that add up
/// to `total` exactly, scattered at random around `position`.
pub fn spawn_orbs(total: u64, position: Point) -> (orbs: Vec<XPOrb>)
    requires
        ORB_COUNT <= total <= MAX_TOTAL,
        position.in_bounds(),
    ensures
        orbs@.len() == ORB_COUNT,
        forall|i: int| 0 <= i < orbs@.len() ==> (#[trigger] orbs@[i]).value >= 1
            && -ORB_JITTER <= orbs@[i].position.x - position.x <= ORB_JITTER
            && -ORB_JITTER <= orbs@[i].position.y - position.y <= ORB_JITTER
            && orbs@[i].position.in_bounds(),
        total_of(values_of(orbs@)) == total,
{
    let mut weights: Vec<u64> = Vec::new();
    let mut offsets: Vec<Point> = Vec::new();
    let mut k: usize = 0;
    while k < ORB_COUNT
        invariant
            0 <= k <= ORB_COUNT,
            weights@.len() == k,
            offsets@.len() == k,
            valid_weights(weights@),
            forall|i: int| 0 <= i < offsets@.len() ==> -ORB_JITTER <= (#[trigger] offsets@[i]).x <= ORB_JITTER
                && -ORB_JITTER <= offsets@[i].y <= ORB_JITTER,
        decreases ORB_COUNT - k,
    {
        weights.push(random_in(1, MAX_WEIGHT as i64) as u64);
        let dx = random_in(-ORB_JITTER, ORB_JITTER - 1);
        let dy = random_in(-ORB_JITTER, ORB_JITTER - 1);
        offsets.push(Point { x: dx, y: dy });
        k = k + 1;
    }
    scatter_orbs(total, position, &weights, &offsets)
}


/// Whether the orb lies closer than `radius` to the player.
pub open spec fn touches(o: XPOrb, player: Point, radius: int) -> bool {
    norm_sq(o.position.x - player.x, o.position.y - player.y) < radius * radius
}

/// The orbs that stay in the world.
pub open spec fn uncollected(orbs: Seq<XPOrb>, player: Point, radius: int) -> Seq<XPOrb> {
    orbs.filter(stays(player, radius))
}

pub open spec fn stays(player: Point, radius: int) -> spec_fn(XPOrb) -> bool {
    |o: XPOrb| !touches(o, player, radius)
}

/// The bar's experience after adding, in order, the value of each orb that
/// the player touches, each addition saturating.
pub open spec fn gathered(start: int, orbs: Seq<XPOrb>, player: Point, radius: int) -> int
    decreases orbs.len(),
{
    if orbs.len() == 0 {
        start
    } else {
        let prev = gathered(start, orbs.drop_last(), player, radius);
        if touches(orbs.last(), player, radius) {
            saturating_add(prev, orbs.last().value as int)
        } else {
            prev
        }
    }
}

/// Consumes every orb closer than `radius` to the player, adding its value
/// to the bar; the other orbs stay, in order.
pub fn xp_orb_collision(orbs: &mut Vec<XPOrb>, player_pos: Point, radius: i64, bar: &mut XPBar)
    requires
        player_pos.in_bounds(),
        0 <= radius <= 4 * COORD_LIMIT,
        forall|i: int| 0 <= i < old(orbs)@.len() ==> (#[trigger] old(orbs)@[i]).position.in_bounds(),
    ensures
        final(orbs)@ == uncollected(old(orbs)@, player_pos, radius as int),
        final(bar).level == old(bar).level,
        final(bar).current == gathered(old(bar).current as int, old(orbs)@, player_pos, radius as int),
{
    let ghost start = bar.current as int;
    let ghost all = orbs@;
    let mut kept: Vec<XPOrb> = Vec::new();
    let mut i: usize = 0;
    proof {
        reveal(Seq::filter);
        assert(all.subrange(0, 0).len() == 0);
    }
    while i < orbs.len()
        invariant
            0 <= i <= all.len(),
            orbs@ == all,
            player_pos.in_bounds(),
            0 <= radius <= 4 * COORD_LIMIT,
            forall|j: int| 0 <= j < all.len() ==> (#[trigger] all[j]).position.in_bounds(),
            kept@ == uncollected(all.subrange(0, i as int), player_pos, radius as int),
            bar.level == old(bar).level,
            bar.current == gathered(start, all.subrange(0, i as int), player_pos, radius as int),
        decreases all.len() - i,
    {
        let o = orbs[i];
        proof {
            assert(all.subrange(0, i + 1) == all.subrange(0, i as int).push(o));
            assert(all.subrange(0, i + 1).drop_last() == all.subrange(0, i as int));
            all.subrange(0, i as int).lemma_filter_push(o, stays(player_pos, radius as int));
        }
        if within_reach(o.position, player_pos, radius) {
            bar.add(o.value);
        } else {
            kept.push(o);
        }
        i = i + 1;
    }
    assert(all.subrange(0, all.len() as int) == all);
    *orbs = kept;
}


/// Pull on an orb at one pixel from the player, in pixels per second.
pub const ORB_PULL: u128 = 50_000;

/// Least pull on an orb, in tenths of a pixel per second (fifty pixels).
pub const MIN_PULL: u128 = 500;

/// `r` is the integer fifth root of `n`, rounded down.
pub open spec fn is_floor_root5(n: int, r: int) -> bool {
    0 <= r && r * r * r * r * r <= n && n < (r + 1) * (r + 1) * (r + 1) * (r + 1) * (r + 1)
}

pub open spec fn floor_root5(n: int) -> int {
    choose|r: int| is_floor_root5(n, r)
}

proof fn lemma_pow5_le(a: int, b: int)
    requires
        0 <= a <= b,
    ensures
        a * a * a * a * a <= b * b * b * b * b,
{
    assert(a * a <= b * b) by (nonlinear_arith)
        requires
            0 <= a <= b,
    ;
    assert(a * a * a <= b * b * b) by (nonlinear_arith)
        requires
            0 <= a <= b,
            a * a <= b * b,
    ;
    assert(a * a * a * a <= b * b * b * b) by (nonlinear_arith)
        requires
            0 <= a <= b,
            a * a * a <= b * b * b,
    ;
    assert(a * a * a * a * a <= b * b * b * b * b) by (nonlinear_arith)
        requires
            0 <= a <= b,
            a * a * a * a <= b * b * b * b,
    ;
}

proof fn lemma_floor_root5_is(n: int, r: int)
    requires
        is_floor_root5(n, r),
    ensures
        floor_root5(n) == r,
{
    let c = floor_root5(n);
    assert(is_floor_root5(n, c));
    if c < r {
        lemma_pow5_le(c + 1, r);
    } else if r < c {
        lemma_pow5_le(r + 1, c);
    }
}

/// Powers of a number below `2^24`, bounded step by step.
proof fn lemma_powers_bounded(m: int)
    requires
        0 <= m < 0x100_0000,
    ensures
        m * m < 0x1_0000_0000_0000,
        m * m * m < 0x1_0000_0000_0000_0000_00,
        m * m * m * m < 0x1_0000_0000_0000_0000_0000_0000,
        m * m * m * m * m < 0x100_0000_0000_0000_0000_0000_0000_0000,
        0 <= m * m * m * m * m,
{
    assert(0 <= m * m < 0x1_0000_0000_0000) by (nonlinear_arith)
        requires
            0 <= m < 0x100_0000,
    ;
    assert(0 <= m * m * m < 0x1_0000_0000_0000_0000_00) by (nonlinear_arith)
        requires
            0 <= m < 0x100_0000,
            0 <= m * m < 0x1_0000_0000_0000,
    ;
    assert(0 <= m * m * m * m < 0x1_0000_0000_0000_0000_0000_0000) by (nonlinear_arith)
        requires
            0 <= m < 0x100_0000,
            0 <= m * m * m < 0x1_0000_0000_0000_0000_00,
    ;
    assert(0 <= m * m * m * m * m < 0x100_0000_0000_0000_0000_0000_0000_0000) by (nonlinear_arith)
        requires
            0 <= m < 0x100_0000,
            0 <= m * m * m * m < 0x1_0000_0000_0000_0000_0000_0000,
    ;
}

/// Integer fifth root, rounded down, by bisection, for `n < 2^120`.
pub fn iroot5(n: u128) -> (r: u128)
    requires
        n < 0x100_0000_0000_0000_0000_0000_0000_0000,
    ensures
        r == floor_root5(n as int),
{
    // lo^5 <= n < hi^5
    let mut lo: u128 = 0;
    let mut hi: u128 = 0x100_0000;
    assert(hi * hi * hi * hi * hi == 0x100_0000_0000_0000_0000_0000_0000_0000) by (nonlinear_arith)
        requires
            hi == 0x100_0000,
    ;
    while hi - lo > 1
        invariant
            lo < hi <= 0x100_0000,
            lo * lo * lo * lo * lo <= n,
            n < hi * hi * hi * hi * hi,
        decreases hi - lo,
    {
        let mid = lo + (hi - lo) / 2;
        proof {
            lemma_powers_bounded(mid as int);
        }
        let p = mid * mid * mid * mid * mid;
        if p <= n {
            lo = mid;
        } else {
            hi = mid;
        }
    }
    proof {
        lemma_floor_root5_is(n as int, lo as int);
    }
    lo
}

/// Speed, in tenths of a pixel per second, at which an orb at distance
/// `dist` (tenths of a pixel) is drawn to the player: `ORB_PULL / d^1.2` in
/// pixels, with `d^1.2` the fifth root of `d^6` rounded down, and never
/// below `MIN_PULL`.
pub open spec fn pull(dist: int) -> int {
    let root = floor_root5(dist * dist * dist * dist * dist * dist / 1_000_000);
    let f = if root == 0 { 10 * ORB_PULL } else { 10 * ORB_PULL / root };
    if f < MIN_PULL {
        MIN_PULL as int
    } else {
        f
    }
}

/// How far an orb is drawn toward the player in `dt_ms`, along the line
/// between them, in tenths of a pixel.
pub open spec fn pull_step(orb: Point, player: Point, dt_ms: int) -> (int, int) {
    let dx = player.x - orb.x;
    let dy = player.y - orb.y;
    let dist = floor_sqrt(norm_sq(dx, dy));
    let step = pull(dist) * dt_ms / 1000;
    scaled(dx, dy, if step > COORD_LIMIT { COORD_LIMIT as int } else { step })
}

fn pull_speed(dist: u128) -> (f: u128)
    requires
        dist <= 0x10_0000,
    ensures
        f == pull(dist as int),
        MIN_PULL <= f <= 10 * ORB_PULL,
{
    assert(dist * dist <= 0x100_0000_0000) by (nonlinear_arith)
        requires
            dist <= 0x10_0000,
    ;
    let d2 = dist * dist;
    assert(d2 * d2 <= 0x1_0000_0000_0000_0000_0000) by (nonlinear_arith)
        requires
            d2 <= 0x100_0000_0000,
    ;
    let d4 = d2 * d2;
    assert(d4 * d2 <= 0x100_0000_0000_0000_0000_0000_0000_0000) by (nonlinear_arith)
        requires
            d2 <= 0x100_0000_0000,
            d4 <= 0x1_0000_0000_0000_0000_0000,
    ;
    let d6 = d4 * d2;
    assert(d6 == dist * dist * dist * dist * dist * dist) by (nonlinear_arith)
        requires
            d2 == dist * dist,
            d4 == d2 * d2,
            d6 == d4 * d2,
    ;
    let root = iroot5(d6 / 1_000_000);
    let f = if root == 0 { 10 * ORB_PULL } else { 10 * ORB_PULL / root };
    if f < MIN_PULL {
        MIN_PULL
    } else {
        f
    }
}

/// Draws every orb toward the player for `dt_ms`; no orb leaves the world.
pub fn move_xp_orb(orbs: &mut Vec<XPOrb>, player_pos: Point, dt_ms: u32)
    requires
        player_pos.in_bounds(),
        forall|i: int| 0 <= i < old(orbs)@.len() ==> (#[trigger] old(orbs)@[i]).position.in_bounds(),
    ensures
        final(orbs)@.len() == old(orbs)@.len(),
        forall|i: int| 0 <= i < final(orbs)@.len() ==> {
            let o = #[trigger] old(orbs)@[i];
            let step = pull_step(o.position, player_pos, dt_ms as int);
            &&& final(orbs)@[i].value == o.value
            &&& final(orbs)@[i].position.x == jittered(o.position.x as int, step.0)
            &&& final(orbs)@[i].position.y == jittered(o.position.y as int, step.1)
            &&& final(orbs)@[i].position.in_bounds()
        },
{
    let ghost start = orbs@;
    let mut i: usize = 0;
    while i < orbs.len()
        invariant
            0 <= i <= orbs@.len(),
            orbs@.len() == start.len(),
            start == old(orbs)@,
            player_pos.in_bounds(),
            forall|j: int| 0 <= j < start.len() ==> (#[trigger] start[j]).position.in_bounds(),
            forall|j: int| i <= j < orbs@.len() ==> orbs@[j] == #[trigger] start[j],
            forall|j: int| 0 <= j < i ==> {
                let o = #[trigger] start[j];
                let step = pull_step(o.position, player_pos, dt_ms as int);
                &&& orbs@[j].value == o.value
                &&& orbs@[j].position.x == jittered(o.position.x as int, step.0)
                &&& orbs@[j].position.y == jittered(o.position.y as int, step.1)
                &&& orbs@[j].position.in_bounds()
            },
        decreases orbs@.len() - i,
    {
        let o = orbs[i];
        assert(start[i as int].position.in_bounds());
        let dx = (player_pos.x as i128) - (o.position.x as i128);
        let dy = (player_pos.y as i128) - (o.position.y as i128);
        assert(0 <= dx * dx <= 0x40_0000_0000 && 0 <= dy * dy <= 0x40_0000_0000) by (nonlinear_arith)
            requires
                -0x8_0000 <= dx <= 0x8_0000,
                -0x8_0000 <= dy <= 0x8_0000,
        ;
        let dist = isqrt((dx * dx + dy * dy) as u128);
        assert(dist <= 0x10_0000) by (nonlinear_arith)
            requires
                dist * dist <= dx * dx + dy * dy,
                dx * dx + dy * dy <= 0x80_0000_0000,
        ;
        let speed = pull_speed(dist);
        assert(speed * dt_ms <= 500_000 * 0xFFFF_FFFF) by (nonlinear_arith)
            requires
                speed <= 500_000,
                dt_ms <= 0xFFFF_FFFF,
        ;
        let raw = speed * (dt_ms as u128) / 1000;
        let step = if raw > COORD_LIMIT as u128 { COORD_LIMIT } else { raw as i64 };
        let v = scale_to(dx, dy, step);
        let x = o.position.x + v.x;
        let y = o.position.y + v.y;
        let pos = Point {
            x: if x > COORD_LIMIT { COORD_LIMIT } else if x < -COORD_LIMIT { -COORD_LIMIT } else { x },
            y: if y > COORD_LIMIT { COORD_LIMIT } else if y < -COORD_LIMIT { -COORD_LIMIT } else { y },
        };
        orbs.set(i, XPOrb { value: o.value, position: pos });
        i = i + 1;
    }
}

} // verus!
