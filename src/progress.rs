//! Session pacing: when and where enemies appear, health regeneration, and
//! the fill of an enemy's health bar.

use vstd::prelude::*;
use crate::geometry::{Point, COORD_LIMIT, norm_sq, within_reach};
use crate::combat::{
    World, EnemyBody, Enemy, HP, CircleCollider, PlayerHealth, LastDamageTime, HealthBar, HealthBarOwner, id_used,
};
use crate::chance::random_in;

verus! {

/// Clearance kept between a new enemy and a planet, in tenths of a pixel.
pub const SPAWN_CLEARANCE: i64 = 300;

/// Nearest and farthest a new enemy appears from the player, in tenths of a pixel.
pub const SPAWN_MIN_RANGE: i64 = 1200;
pub const SPAWN_MAX_RANGE: i64 = 5000;

/// Tries at finding a free place before giving up for this tick.
pub const SPAWN_TRIES: u32 = 100;

/// Hit points of a new enemy, in thousandths.
pub const ENEMY_HP: i64 = 4000;

/// Radius of an enemy, in tenths of a pixel.
pub const ENEMY_RADIUS: i64 = 300;

/// Centres and radii of the planets, in tenths of a pixel.
pub struct PlanetData(pub Vec<(Point, i64)>);

impl PlanetData {
    pub open spec fn wf(self) -> bool {
        forall|i: int| 0 <= i < self.0@.len() ==> (#[trigger] self.0@[i]).0.in_bounds()
            && 0 <= self.0@[i].1 <= COORD_LIMIT
    }
}

/// Whether `pos` keeps `SPAWN_CLEARANCE` beyond the edge of planet `p`.
pub open spec fn clear_of(pos: Point, p: (Point, i64)) -> bool {
    norm_sq(pos.x - p.0.x, pos.y - p.0.y) >= (p.1 + SPAWN_CLEARANCE) * (p.1 + SPAWN_CLEARANCE)
}

/// Whether `pos` is clear of every planet.
pub fn is_position_safe(pos: Point, planets: &PlanetData) -> (r: bool)
    requires
        pos.in_bounds(),
        planets.wf(),
    ensures
        r == forall|i: int| 0 <= i < planets.0@.len() ==> clear_of(pos, #[trigger] planets.0@[i]),
{
    let mut i: usize = 0;
    while i < planets.0.len()
        invariant
            0 <= i <= planets.0@.len(),
            pos.in_bounds(),
            planets.wf(),
            forall|j: int| 0 <= j < i ==> clear_of(pos, #[trigger] planets.0@[j]),
        decreases planets.0@.len() - i,
    {
        let (centre, radius) = planets.0[i];
        if within_reach(pos, centre, radius + SPAWN_CLEARANCE) {
            return false;
        }
        i = i + 1;
    }
    true
}

/// Milliseconds between two spawns with `count` enemies alive:
/// `(count / 5)^2 + 0.1` seconds.
pub open spec fn spawn_cooldown(count: int) -> int {
    count * count * 40 + 100
}

pub fn spawn_cooldown_ms(count: i32) -> (r: u128)
    ensures
        r == spawn_cooldown(count as int),
{
    let c = count as i128;
    assert(0 <= c * c <= 0x4000_0000_0000_0000) by (nonlinear_arith)
        requires
            -0x8000_0000 <= c <= 0x8000_0000,
    ;
    (c * c * 40 + 100) as u128
}

/// Time gathered toward the next spawn.
pub struct SpawnTimer {
    pub elapsed_ms: u64,
}

/// Time gathered once `dt_ms` more has passed, saturating at `u64::MAX`.
pub open spec fn gathered_time(elapsed: int, dt_ms: int) -> int {
    if elapsed + dt_ms > u64::MAX {
        u64::MAX as int
    } else {
        elapsed + dt_ms
    }
}

/// Whether an enemy is due once `dt_ms` more has passed with `count` alive.
pub open spec fn spawn_due(elapsed: int, dt_ms: int, count: int) -> bool {
    gathered_time(elapsed, dt_ms) > spawn_cooldown(count)
}

/// The timer after the tick: restarted when an enemy was due.
pub open spec fn timer_after(elapsed: int, dt_ms: int, count: int) -> int {
    if spawn_due(elapsed, dt_ms, count) {
        0
    } else {
        gathered_time(elapsed, dt_ms)
    }
}

impl SpawnTimer {
    pub fn new() -> (r: SpawnTimer)
        ensures
            r.elapsed_ms == 0,
    {
        SpawnTimer { elapsed_ms: 0 }
    }

    /// Lets `dt_ms` pass; says whether an enemy is due, restarting the
    /// count when one is.
    pub fn tick(&mut self, dt_ms: u64, count: i32) -> (due: bool)
        ensures
            due == spawn_due(old(self).elapsed_ms as int, dt_ms as int, count as int),
            final(self).elapsed_ms == timer_after(old(self).elapsed_ms as int, dt_ms as int, count as int),
    {
        let t = if self.elapsed_ms > u64::MAX - dt_ms { u64::MAX } else { self.elapsed_ms + dt_ms };
        if (t as u128) > spawn_cooldown_ms(count) {
            self.elapsed_ms = 0;
            true
        } else {
            self.elapsed_ms = t;
            false
        }
    }
}

/// Whether `pos` is a fit place for a new enemy near `player`.
pub open spec fn fit_spawn(pos: Point, player: Point, planets: PlanetData) -> bool {
    let d = norm_sq(pos.x - player.x, pos.y - player.y);
    &&& pos.in_bounds()
    &&& SPAWN_MIN_RANGE * SPAWN_MIN_RANGE <= d < SPAWN_MAX_RANGE * SPAWN_MAX_RANGE
    &&& forall|i: int| 0 <= i < planets.0@.len() ==> clear_of(pos, #[trigger] planets.0@[i])
}

/// `player` moved by `(dx, dy)`.
pub open spec fn moved(player: Point, dx: int, dy: int) -> Point {
    Point { x: (player.x + dx) as i64, y: (player.y + dy) as i64 }
}

/// The place `(dx, dy)` away from the player, if it is fit for a new enemy.
pub fn spawn_candidate(player: Point, dx: i64, dy: i64, planets: &PlanetData) -> (r: Option<Point>)
    requires
        player.in_bounds(),
        planets.wf(),
        -SPAWN_MAX_RANGE <= dx <= SPAWN_MAX_RANGE,
        -SPAWN_MAX_RANGE <= dy <= SPAWN_MAX_RANGE,
    ensures
        r == if fit_spawn(moved(player, dx as int, dy as int), player, *planets) {
            Some(moved(player, dx as int, dy as int))
        } else {
            None
        },
{
    let x = player.x + dx;
    let y = player.y + dy;
    assert(0 <= dx * dx <= 25_000_000 && 0 <= dy * dy <= 25_000_000) by (nonlinear_arith)
        requires
            -5000 <= dx <= 5000,
            -5000 <= dy <= 5000,
    ;
    let d = dx * dx + dy * dy;
    if -COORD_LIMIT <= x && x <= COORD_LIMIT && -COORD_LIMIT <= y && y <= COORD_LIMIT
        && SPAWN_MIN_RANGE * SPAWN_MIN_RANGE <= d && d < SPAWN_MAX_RANGE * SPAWN_MAX_RANGE {
        let pos = Point { x, y };
        if is_position_safe(pos, planets) {
            return Some(pos);
        }
    }
    None
}

/// Tries, up to `SPAWN_TRIES` times, random offsets around the player (see
/// `spawn_candidate`); the first fit place is returned.
pub fn pick_spawn_position(player: Point, planets: &PlanetData) -> (r: Option<Point>)
    requires
        player.in_bounds(),
        planets.wf(),
    ensures
        r matches Some(p) ==> fit_spawn(p, player, *planets),
{
    let mut tries: u32 = 0;
    while tries < SPAWN_TRIES
        invariant
            player.in_bounds(),
            planets.wf(),
        decreases SPAWN_TRIES - tries,
    {
        tries = tries + 1;
        let dx = random_in(-SPAWN_MAX_RANGE, SPAWN_MAX_RANGE);
        let dy = random_in(-SPAWN_MAX_RANGE, SPAWN_MAX_RANGE);
        if let Some(pos) = spawn_candidate(player, dx, dy, planets) {
            return Some(pos);
        }
    }
    None
}

/// A new enemy with `sides` sides at `pos`, standing still, at full health.
pub open spec fn new_enemy(id: u64, sides: i32, pos: Point) -> EnemyBody {
    EnemyBody {
        id,
        enemy: Enemy { sides },
        hp: HP { current: ENEMY_HP, max: ENEMY_HP },
        position: pos,
        velocity: Point { x: 0, y: 0 },
        collider: CircleCollider(ENEMY_RADIUS),
    }
}

/// Lets `dt_ms` pass and, when an enemy is due and a fit place is found,
/// adds a pursuer or an interceptor, with id `id`, there; says whether it did.
pub fn spawn_enemies(world: &mut World, timer: &mut SpawnTimer, dt_ms: u64, planets: &PlanetData, id: u64) -> (spawned: bool)
    requires
        old(world).wf(),
        planets.wf(),
    ensures
        final(world).wf(),
        final(timer).elapsed_ms == timer_after(
            old(timer).elapsed_ms as int,
            dt_ms as int,
            old(world).enemies_counter.0 as int,
        ),
        spawned ==> spawn_due(old(timer).elapsed_ms as int, dt_ms as int, old(world).enemies_counter.0 as int)
            && !id_used(*old(world), id),
        !spawned ==> final(world).enemies@ == old(world).enemies@ && final(world).health_bars@ == old(world).health_bars@
            && final(world).enemies_counter == old(world).enemies_counter && final(world).cues@ == old(world).cues@
            && final(world).shake.level() == old(world).shake.level(),
        spawned ==> (exists|sides: i32, pos: Point|
            (sides == 3 || sides == 4) && fit_spawn(pos, old(world).player.position, *planets)
                && #[trigger] final(world).enemies@ == old(world).enemies@.push(new_enemy(id, sides, pos)))
            && final(world).health_bars@ == old(world).health_bars@.push(HealthBar { owner: HealthBarOwner(id) })
            && final(world).enemies_counter.0 == old(world).enemies_counter.0 + 1,
        final(world).player == old(world).player,
        final(world).arrows@ == old(world).arrows@,
        final(world).planets@ == old(world).planets@,
        final(world).orbs@ == old(world).orbs@,
        final(world).inventory == old(world).inventory,
        final(world).last_damage == old(world).last_damage,
{
    if !timer.tick(dt_ms, world.enemies_counter.0) {
        return false;
    }
    let sides = random_in(3, 4) as i32;
    match pick_spawn_position(world.player.position, planets) {
        Some(pos) => {
            let body = EnemyBody {
                id,
                enemy: Enemy { sides },
                hp: HP { current: ENEMY_HP, max: ENEMY_HP },
                position: pos,
                velocity: Point { x: 0, y: 0 },
                collider: CircleCollider(ENEMY_RADIUS),
            };
            assert(body == new_enemy(id, sides, pos));
            world.add_enemy(body)
        },
        None => false,
    }
}

/// Health after `dt_ms`: it grows by a thousandth per millisecond (a point
/// per second) once `REGENERATE_COOLDOWN` has passed since the last damage,
/// as long as it stays below its full amount (and within `i64`).
pub open spec fn regenerated(h: PlayerHealth, last_damage: int, now_ms: int, dt_ms: int) -> int {
    let full = h.num_segments * h.per_segment * 1000;
    if last_damage + crate::combat::REGENERATE_COOLDOWN < now_ms && h.current + dt_ms < full
        && h.current + dt_ms <= i64::MAX {
        h.current + dt_ms
    } else {
        h.current as int
    }
}

pub fn regenerate_healthbar(health: &mut PlayerHealth, last_damage: LastDamageTime, now_ms: u64, dt_ms: u64)
    ensures
        final(health).current == regenerated(*old(health), last_damage.0 as int, now_ms as int, dt_ms as int),
        final(health).per_segment == old(health).per_segment,
        final(health).num_segments == old(health).num_segments,
{
    let segs = health.num_segments as i128;
    let per = health.per_segment as i128;
    assert(-0x4000_0000_0000_0000 <= segs * per <= 0x4000_0000_0000_0000) by (nonlinear_arith)
        requires
            -0x8000_0000 <= segs <= 0x8000_0000,
            -0x8000_0000 <= per <= 0x8000_0000,
    ;
    let full = segs * per;
    let next = (health.current as i128) + (dt_ms as i128);
    if (last_damage.0 as u128) + (crate::combat::REGENERATE_COOLDOWN as u128) < (now_ms as u128) && next < full * 1000
        && next <= i64::MAX as i128 {
        health.current = next as i64;
    }
}

/// How full an enemy's health bar is, in thousandths:
/// `max(current, 0) / max(max, one point)`, at most one.
pub open spec fn health_fraction(hp: HP) -> int {
    let cur = if hp.current < 0 { 0 } else { hp.current as int };
    let max = if hp.max < 1000 { 1000 } else { hp.max as int };
    let f = cur * 1000 / max;
    if f > 1000 {
        1000
    } else {
        f
    }
}

pub fn health_bar_scale(hp: &HP) -> (r: u32)
    ensures
        r == health_fraction(*hp),
{
    let cur: i128 = if hp.current < 0 { 0 } else { hp.current as i128 };
    let max: i128 = if hp.max < 1000 { 1000 } else { hp.max as i128 };
    let f = cur * 1000 / max;
    if f > 1000 {
        1000
    } else {
        f as u32
    }
}


/// The segment the health ends in, counting from zero, rounded down (a
/// negative health ends below the first).
pub open spec fn current_segment(h: PlayerHealth) -> int {
    h.current as int / (h.per_segment * 1000)
}

/// How many segments remain once those past the current one are lost (none
/// once the health is a whole segment below zero).
pub open spec fn segments_left(h: PlayerHealth) -> int {
    if current_segment(h) + 1 < h.num_segments {
        if current_segment(h) + 1 < 0 {
            0
        } else {
            current_segment(h) + 1
        }
    } else {
        h.num_segments as int
    }
}

/// How full segment `i` is drawn, in thousandths.
pub open spec fn segment_fill(h: PlayerHealth, i: int) -> int {
    let seg = current_segment(h);
    let unit = h.per_segment * 1000;
    if i < seg {
        1000
    } else if i == seg {
        (h.current - seg * unit) * 1000 / unit
    } else {
        0
    }
}

/// Drops the segments past the one the health ends in, for good, and returns
/// how full each remaining segment is, in thousandths.
pub fn update_health_bar_ui(health: &mut PlayerHealth) -> (fills: Vec<u32>)
    requires
        old(health).per_segment > 0,
    ensures
        final(health).current == old(health).current,
        final(health).per_segment == old(health).per_segment,
        final(health).num_segments == segments_left(*old(health)),
        fills@.len() == if segments_left(*old(health)) > 0 { segments_left(*old(health)) } else { 0 },
        forall|i: int| 0 <= i < fills@.len() ==> fills@[i] == segment_fill(*old(health), i),
{
    let unit = (health.per_segment as i128) * 1000;
    let cur = health.current as i128;
    let seg: i128 = if cur >= 0 { cur / unit } else { -((-cur + unit - 1) / unit) };
    proof {
        assert(seg == current_segment(*old(health))) by {
            if cur < 0 {
                let c = cur as int;
                let u = unit as int;
                let q: int = (-c + u - 1) / u;
                assert(q * u <= -c + u - 1 < q * u + u) by (nonlinear_arith)
                    requires
                        q == (-c + u - 1) / u,
                        u > 0,
                        -c + u - 1 >= 0,
                ;
                assert((-q) * u <= c < (-q) * u + u) by (nonlinear_arith)
                    requires
                        q * u <= -c + u - 1 < q * u + u,
                ;
                vstd::arithmetic::div_mod::lemma_fundamental_div_mod_converse_div(c, u, -q, c - (-q) * u);
            }
        }
    }
    if seg + 1 < health.num_segments as i128 {
        health.num_segments = if seg + 1 < 0 { 0 } else { (seg + 1) as i32 };
    }
    let n = health.num_segments;
    let mut fills: Vec<u32> = Vec::new();
    let mut i: i32 = 0;
    while i < n
        invariant
            0 <= i,
            n == health.num_segments,
            n == segments_left(*old(health)),
            i <= n || (n < 0 && i == 0),
            fills@.len() == i,
            health.current == old(health).current,
            health.per_segment == old(health).per_segment,
            unit == health.per_segment * 1000,
            unit > 0,
            cur == health.current,
            seg == current_segment(*old(health)),
            forall|j: int| 0 <= j < i ==> fills@[j] == segment_fill(*old(health), j),
        decreases n - i,
    {
        let f: u32 = if (i as i128) < seg {
            1000
        } else if (i as i128) == seg {
            assert(0 <= cur - seg * unit < unit) by (nonlinear_arith)
                requires
                    seg as int == cur as int / unit as int,
                    unit > 0,
            ;
            let part = (cur - seg * unit) * 1000 / unit;
            assert(0 <= part < 1000) by (nonlinear_arith)
                requires
                    part as int == ((cur - seg * unit) * 1000) as int / unit as int,
                    0 <= cur - seg * unit < unit,
                    unit > 0,
            ;
            part as u32
        } else {
            0
        };
        fills.push(f);
        i = i + 1;
    }
    fills
}

} // verus!
