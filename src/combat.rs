//! The world of one session and the resolution of its collisions: arrows
//! against enemies and planets, enemies against the player.
//!
//! Hit points are held in thousandths; an arrow's damage in thousandths too
//! (one point for each second the bow was drawn).

use vstd::prelude::*;
use crate::geometry::{Point, COORD_LIMIT, norm_sq, within_reach};
use crate::steering::{steer, steered, ENEMY_SPEED};
use crate::loot::{ColorId, Crystal, Effect, Inventory};
use crate::rewards::{XPOrb, spawn_orbs, ENEMY_REWARD, ORB_COUNT, ORB_JITTER, total_of, values_of};
use crate::shake::{ScreenShake, HIT_TRAUMA, DEATH_TRAUMA, CONTACT_TRAUMA, clamped};

verus! {

/// Largest damage an arrow can carry, in thousandths.
pub const MAX_DAMAGE: u64 = 0x1_0000_0000;

/// Largest hit points of anything, in thousandths.
pub const MAX_HP: i64 = 0x1_0000_0000;

#[derive(Clone, Copy, Debug, PartialEq, Eq, Structural)]
pub struct Enemy {
    /// Three sides chase the player; four sides intercept.
    pub sides: i32,
}

#[derive(Clone, Copy, Debug, PartialEq, Eq, Structural)]
pub struct HP {
    pub current: i64,
    pub max: i64,
}

#[derive(Clone, Copy, Debug, PartialEq, Eq, Structural)]
pub struct CircleCollider(pub i64);

#[derive(Clone, Copy, Debug, PartialEq, Eq, Structural)]
pub struct Arrow {
    /// In thousandths of a hit point.
    pub damage: u64,
}

/// The entity a health bar belongs to.
#[derive(Clone, Copy, Debug, PartialEq, Eq, Structural)]
pub struct HealthBarOwner(pub u64);

/// A health bar drawn over an enemy; it goes when its owner goes.
#[derive(Clone, Copy, Debug, PartialEq, Eq, Structural)]
pub struct HealthBar {
    pub owner: HealthBarOwner,
}

#[derive(Clone, Copy, Debug, PartialEq, Eq, Structural)]
pub struct EnemyBody {
    pub id: u64,
    pub enemy: Enemy,
    pub hp: HP,
    pub position: Point,
    pub velocity: Point,
    pub collider: CircleCollider,
}

#[derive(Clone, Copy, Debug, PartialEq, Eq, Structural)]
pub struct ArrowBody {
    pub id: u64,
    pub arrow: Arrow,
    pub position: Point,
    pub velocity: Point,
}

#[derive(Clone, Copy, Debug, PartialEq, Eq, Structural)]
pub struct Planet {
    pub color: ColorId,
    pub effect: Effect,
    pub hp: i64,
    pub max_hp: i64,
}

#[derive(Clone, Copy, Debug, PartialEq, Eq, Structural)]
pub struct PlanetBody {
    pub id: u64,
    pub planet: Planet,
}

/// Live enemies, kept equal to the number of enemies in the world.
#[derive(Clone, Copy, Debug, PartialEq, Eq, Structural)]
pub struct EnemiesCounter(pub i32);

/// A contact reported by the physics: two entities started or stopped
/// touching.
#[derive(Clone, Copy, Debug, PartialEq, Eq, Structural)]
pub enum CollisionEvent {
    Started(u64, u64),
    Stopped(u64, u64),
}

/// A fire-and-forget request for a particle effect or a sound.
#[derive(Clone, Copy, Debug, PartialEq, Eq, Structural)]
pub enum Cue {
    /// Damage sparks where an arrow struck.
    DamageParticles(Point),
    /// A burst where an enemy died.
    DeathParticles(Point),
    /// The sound of a hit.
    HurtSound,
}

/// Whether the enemy is one that hurts on contact and overlaps the player.
pub open spec fn touching(e: EnemyBody, p: PlayerBody) -> bool {
    &&& (e.enemy.sides == 3 || e.enemy.sides == 4)
    &&& norm_sq(e.position.x - p.position.x, e.position.y - p.position.y)
        < (e.collider.0 + p.collider.0) * (e.collider.0 + p.collider.0)
}

pub open spec fn spares(p: PlayerBody) -> spec_fn(EnemyBody) -> bool {
    |e: EnemyBody| !touching(e, p)
}

/// How many of `enemies` touch the player.
pub open spec fn contact_count(enemies: Seq<EnemyBody>, p: PlayerBody) -> int {
    enemies.len() - enemies.filter(spares(p)).len()
}

/// Health after `k` contacts, never below `i64::MIN`.
pub open spec fn hurt(h: int, k: int) -> int {
    if h - k * ENEMY_DAMAGE < i64::MIN {
        i64::MIN as int
    } else {
        h - k * ENEMY_DAMAGE
    }
}

/// The health bars left once each enemy of `enemies` that touches the player,
/// in order, has gone with its bars.
pub open spec fn contact_bars(bars: Seq<HealthBar>, enemies: Seq<EnemyBody>, p: PlayerBody) -> Seq<HealthBar>
    decreases enemies.len(),
{
    if enemies.len() == 0 {
        bars
    } else {
        let prev = contact_bars(bars, enemies.drop_last(), p);
        if touching(enemies.last(), p) {
            bars_without(prev, enemies.last().id)
        } else {
            prev
        }
    }
}

/// The damage sparks of the contacts, one where each touching enemy stood,
/// in order.
pub open spec fn contact_cues(enemies: Seq<EnemyBody>, p: PlayerBody) -> Seq<Cue>
    decreases enemies.len(),
{
    if enemies.len() == 0 {
        Seq::empty()
    } else {
        let prev = contact_cues(enemies.drop_last(), p);
        if touching(enemies.last(), p) {
            prev.push(Cue::DamageParticles(enemies.last().position))
        } else {
            prev
        }
    }
}

proof fn lemma_filter_len_le<A>(s: Seq<A>, f: spec_fn(A) -> bool)
    ensures
        s.filter(f).len() <= s.len(),
    decreases s.len(),
{
    reveal(Seq::filter);
    if s.len() > 0 {
        lemma_filter_len_le(s.drop_last(), f);
    }
}

/// The crystal a destroyed planet leaves: its colour and effect.
pub open spec fn crystal_of(p: Planet) -> Crystal {
    Crystal { color: p.color, effect: p.effect, phase: 0, resonance: 0 }
}

pub open spec fn knocked(v: int, push: int) -> int {
    if v + push > COORD_LIMIT {
        COORD_LIMIT as int
    } else if v + push < -COORD_LIMIT {
        -COORD_LIMIT
    } else {
        v + push
    }
}

fn knock_axis(v: i64, push: i64) -> (r: i64)
    requires
        -COORD_LIMIT <= v <= COORD_LIMIT,
        -COORD_LIMIT <= push <= COORD_LIMIT,
    ensures
        r == knocked(v as int, push as int),
{
    let s = v + push;
    if s > COORD_LIMIT {
        COORD_LIMIT
    } else if s < -COORD_LIMIT {
        -COORD_LIMIT
    } else {
        s
    }
}

pub open spec fn owned_by(id: u64) -> spec_fn(HealthBar) -> bool {
    |b: HealthBar| b.owner.0 != id
}

/// The health bars that remain once the entity `id` is gone.
pub open spec fn bars_without(bars: Seq<HealthBar>, id: u64) -> Seq<HealthBar> {
    bars.filter(owned_by(id))
}

/// Despawns every health bar whose owner is `id`.
pub fn despawn_health_bars(bars: &mut Vec<HealthBar>, id: u64)
    ensures
        final(bars)@ == bars_without(old(bars)@, id),
{
    let ghost all = bars@;
    let mut kept: Vec<HealthBar> = Vec::new();
    let mut i: usize = 0;
    proof {
        reveal(Seq::filter);
        assert(all.subrange(0, 0).len() == 0);
    }
    while i < bars.len()
        invariant
            0 <= i <= all.len(),
            bars@ == all,
            kept@ == bars_without(all.subrange(0, i as int), id),
        decreases all.len() - i,
    {
        let b = bars[i];
        proof {
            assert(all.subrange(0, i + 1) == all.subrange(0, i as int).push(b));
            all.subrange(0, i as int).lemma_filter_push(b, owned_by(id));
        }
        if b.owner.0 != id {
            kept.push(b);
        }
        i = i + 1;
    }
    assert(all.subrange(0, all.len() as int) == all);
    *bars = kept;
}


/// Damage an enemy deals to the player on contact, in thousandths (one point).
pub const ENEMY_DAMAGE: i64 = 1000;

/// Milliseconds after the last damage before health starts to come back.
pub const REGENERATE_COOLDOWN: u64 = 3000;

/// The player's health, in thousandths, drawn as `num_segments` segments of
/// `per_segment` whole points each.
#[derive(Clone, Copy, Debug, PartialEq, Eq, Structural)]
pub struct PlayerHealth {
    pub current: i64,
    pub per_segment: i32,
    pub num_segments: i32,
}

/// When, in milliseconds of session time, the player was last damaged.
#[derive(Clone, Copy, Debug, PartialEq, Eq, Structural)]
pub struct LastDamageTime(pub u64);

#[derive(Clone, Copy, Debug, PartialEq, Eq, Structural)]
pub struct PlayerBody {
    pub position: Point,
    pub velocity: Point,
    pub health: PlayerHealth,
    pub collider: CircleCollider,
}

impl PlayerBody {
    /// The player as a session starts: standing at `position`, with 36 of
    /// 40 points of health in four segments of ten, and a radius of thirty
    /// pixels.
    pub fn new_player(position: Point) -> (p: PlayerBody)
        ensures
            p.position == position,
            p.velocity == (Point { x: 0, y: 0 }),
            p.health == (PlayerHealth { current: 36_000, per_segment: 10, num_segments: 4 }),
            p.collider.0 == 300,
    {
        PlayerBody {
            position,
            velocity: Point { x: 0, y: 0 },
            health: PlayerHealth { current: 36_000, per_segment: 10, num_segments: 4 },
            collider: CircleCollider(300),
        }
    }
}

/// What one session holds.
pub struct World {
    pub player: PlayerBody,
    pub last_damage: LastDamageTime,
    pub enemies: Vec<EnemyBody>,
    pub health_bars: Vec<HealthBar>,
    pub arrows: Vec<ArrowBody>,
    pub planets: Vec<PlanetBody>,
    pub orbs: Vec<XPOrb>,
    pub inventory: Inventory,
    pub shake: ScreenShake,
    pub enemies_counter: EnemiesCounter,
    pub cues: Vec<Cue>,
}

impl EnemyBody {
    pub open spec fn wf(self) -> bool {
        &&& self.position.in_bounds()
        &&& self.velocity.in_bounds()
        &&& -MAX_HP <= self.hp.current <= MAX_HP
        &&& 0 <= self.collider.0 <= COORD_LIMIT
    }
}

impl ArrowBody {
    pub open spec fn wf(self) -> bool {
        &&& self.position.in_bounds()
        &&& self.velocity.in_bounds()
        &&& self.arrow.damage <= MAX_DAMAGE
    }
}

impl PlanetBody {
    pub open spec fn wf(self) -> bool {
        -MAX_HP <= self.planet.hp <= MAX_HP
    }
}

/// The enemy after an arrow's hit: its hit points less the damage, and the
/// arrow's velocity added to its own.
pub open spec fn struck(e: EnemyBody, a: ArrowBody) -> EnemyBody {
    EnemyBody {
        hp: HP { current: (e.hp.current - a.arrow.damage) as i64, max: e.hp.max },
        velocity: Point {
            x: knocked(e.velocity.x as int, a.velocity.x as int) as i64,
            y: knocked(e.velocity.y as int, a.velocity.y as int) as i64,
        },
        ..e
    }
}

/// The outcome of the hit of the arrow at `arrow` on the enemy at `enemy`
/// (see `World::handle_enemy_damage`).
pub open spec fn enemy_hit(pre: World, post: World, enemy: int, arrow: int) -> bool {
    let e = pre.enemies@[enemy];
    let a = pre.arrows@[arrow];
    let hit = struck(e, a);
    &&& post.arrows@ == pre.arrows@.remove(arrow)
    &&& post.planets@ == pre.planets@
    &&& post.inventory == pre.inventory
    &&& post.player == pre.player
    &&& post.last_damage == pre.last_damage
    &&& hit.hp.current == e.hp.current - a.arrow.damage
    &&& hit.hp.current > 0 ==> {
        &&& post.enemies@ == pre.enemies@.update(enemy, hit)
        &&& post.health_bars@ == pre.health_bars@
        &&& post.enemies_counter == pre.enemies_counter
        &&& post.orbs@ == pre.orbs@
        &&& post.shake.level() == clamped(HIT_TRAUMA as int)
        &&& post.cues@ == pre.cues@.push(Cue::DamageParticles(a.position)).push(Cue::HurtSound)
    }
    &&& hit.hp.current <= 0 ==> {
        &&& post.enemies@ == pre.enemies@.remove(enemy)
        &&& post.health_bars@ == bars_without(pre.health_bars@, e.id)
        &&& post.enemies_counter.0 == pre.enemies_counter.0 - 1
        &&& post.shake.level() == clamped(DEATH_TRAUMA as int)
        &&& post.cues@ == pre.cues@.push(Cue::DamageParticles(a.position)).push(
            Cue::HurtSound,
        ).push(Cue::DeathParticles(e.position))
        &&& post.orbs@.len() == pre.orbs@.len() + ORB_COUNT
        &&& post.orbs@.subrange(0, pre.orbs@.len() as int) == pre.orbs@
        &&& total_of(values_of(post.orbs@.subrange(pre.orbs@.len() as int, post.orbs@.len() as int)))
            == ENEMY_REWARD
        &&& forall|k: int| pre.orbs@.len() <= k < post.orbs@.len() ==> {
            let o = #[trigger] post.orbs@[k];
            &&& -ORB_JITTER <= o.position.x - e.position.x <= ORB_JITTER
            &&& -ORB_JITTER <= o.position.y - e.position.y <= ORB_JITTER
            &&& o.value >= 1
        }
    }
}

/// The outcome of the hit of the arrow at `arrow` on the planet at `planet`
/// (see `World::collision`).
pub open spec fn planet_hit(pre: World, post: World, planet: int, arrow: int) -> bool {
    let p = pre.planets@[planet];
    let a = pre.arrows@[arrow];
    let hp = p.planet.hp - a.arrow.damage;
    &&& post.arrows@ == pre.arrows@.remove(arrow)
    &&& post.enemies@ == pre.enemies@
    &&& post.health_bars@ == pre.health_bars@
    &&& post.orbs@ == pre.orbs@
    &&& post.enemies_counter == pre.enemies_counter
    &&& post.player == pre.player
    &&& post.last_damage == pre.last_damage
    &&& post.shake.level() == clamped(HIT_TRAUMA as int)
    &&& post.cues@ == pre.cues@.push(Cue::DamageParticles(a.position)).push(Cue::HurtSound)
    &&& hp > 0 ==> post.planets@ == pre.planets@.update(
        planet,
        PlanetBody { planet: Planet { hp: hp as i64, ..p.planet }, ..p },
    ) && post.inventory.crystals@ == pre.inventory.crystals@
    &&& hp <= 0 ==> post.planets@ == pre.planets@.remove(planet)
        && post.inventory.crystals@ == pre.inventory.crystals@.push(
        crystal_of(p.planet),
    )
}

pub open spec fn enemy_ids(w: World) -> Seq<u64> {
    w.enemies@.map_values(|e: EnemyBody| e.id)
}

/// No id appears twice.
pub open spec fn unique_ids(s: Seq<u64>) -> bool {
    forall|i: int, j: int| 0 <= i < s.len() && 0 <= j < s.len() && i != j ==> s[i] != s[j]
}

/// No id appears in both.
pub open spec fn ids_apart(a: Seq<u64>, b: Seq<u64>) -> bool {
    forall|i: int, j: int| 0 <= i < a.len() && 0 <= j < b.len() ==> a[i] != b[j]
}

/// Every id of `sub` is an id of `s`.
pub open spec fn ids_within(sub: Seq<u64>, s: Seq<u64>) -> bool {
    forall|i: int| 0 <= i < sub.len() ==> s.contains(#[trigger] sub[i])
}

/// Whether some body of `w` carries `id`.
pub open spec fn id_used(w: World, id: u64) -> bool {
    enemy_ids(w).contains(id) || arrow_ids(w).contains(id) || planet_ids(w).contains(id)
}

proof fn lemma_unique_push(s: Seq<u64>, x: u64)
    requires
        unique_ids(s),
        !s.contains(x),
    ensures
        unique_ids(s.push(x)),
{
    let t = s.push(x);
    assert forall|i: int, j: int| 0 <= i < t.len() && 0 <= j < t.len() && i != j implies t[i] != t[j] by {
        if i < s.len() && j < s.len() {
            assert(t[i] == s[i] && t[j] == s[j]);
        } else if i < s.len() {
            assert(t[i] == s[i]);
        } else {
            assert(t[j] == s[j]);
        }
    }
}

proof fn lemma_apart_push(a: Seq<u64>, b: Seq<u64>, x: u64)
    requires
        ids_apart(a, b),
        !b.contains(x),
    ensures
        ids_apart(a.push(x), b),
{
    let t = a.push(x);
    assert forall|i: int, j: int| 0 <= i < t.len() && 0 <= j < b.len() implies t[i] != b[j] by {
        if i < a.len() {
            assert(t[i] == a[i]);
        }
    }
}

proof fn lemma_apart_push_right(a: Seq<u64>, b: Seq<u64>, x: u64)
    requires
        ids_apart(a, b),
        !a.contains(x),
    ensures
        ids_apart(a, b.push(x)),
{
    let t = b.push(x);
    assert forall|i: int, j: int| 0 <= i < a.len() && 0 <= j < t.len() implies a[i] != t[j] by {
        if j < b.len() {
            assert(t[j] == b[j]);
        }
    }
}

proof fn lemma_ids_within_self(s: Seq<u64>)
    ensures
        ids_within(s, s),
{
    assert forall|i: int| 0 <= i < s.len() implies s.contains(#[trigger] s[i]) by {
        assert(s[i] == s[i]);
    }
}

proof fn lemma_apart_within(a: Seq<u64>, b: Seq<u64>, a2: Seq<u64>, b2: Seq<u64>)
    requires
        ids_apart(a, b),
        ids_within(a2, a),
        ids_within(b2, b),
    ensures
        ids_apart(a2, b2),
{
    assert forall|i: int, j: int| 0 <= i < a2.len() && 0 <= j < b2.len() implies a2[i] != b2[j] by {
        assert(a.contains(a2[i]));
        assert(b.contains(b2[j]));
        let k = choose|k: int| 0 <= k < a.len() && a[k] == a2[i];
        let l = choose|l: int| 0 <= l < b.len() && b[l] == b2[j];
    }
}

proof fn lemma_remove_ids(s: Seq<u64>, k: int)
    requires
        0 <= k < s.len(),
    ensures
        ids_within(s.remove(k), s),
        unique_ids(s) ==> unique_ids(s.remove(k)),
{
    let r = s.remove(k);
    assert forall|i: int| 0 <= i < r.len() implies s.contains(#[trigger] r[i]) by {
        let i0 = if i < k { i } else { i + 1 };
        assert(r[i] == s[i0]);
    }
    if unique_ids(s) {
        assert forall|i: int, j: int| 0 <= i < r.len() && 0 <= j < r.len() && i != j implies r[i] != r[j] by {
            let i0 = if i < k { i } else { i + 1 };
            let j0 = if j < k { j } else { j + 1 };
            assert(r[i] == s[i0] && r[j] == s[j0]);
        }
    }
}

/// The three kinds of body keep their ids apart when each kind only loses
/// bodies or keeps them.
proof fn lemma_ids_kept(pre: World, post: World)
    requires
        ids_apart(enemy_ids(pre), arrow_ids(pre)),
        ids_apart(enemy_ids(pre), planet_ids(pre)),
        ids_apart(arrow_ids(pre), planet_ids(pre)),
        ids_within(enemy_ids(post), enemy_ids(pre)),
        ids_within(arrow_ids(post), arrow_ids(pre)),
        ids_within(planet_ids(post), planet_ids(pre)),
    ensures
        ids_apart(enemy_ids(post), arrow_ids(post)),
        ids_apart(enemy_ids(post), planet_ids(post)),
        ids_apart(arrow_ids(post), planet_ids(post)),
{
    lemma_apart_within(enemy_ids(pre), arrow_ids(pre), enemy_ids(post), arrow_ids(post));
    lemma_apart_within(enemy_ids(pre), planet_ids(pre), enemy_ids(post), planet_ids(post));
    lemma_apart_within(arrow_ids(pre), planet_ids(pre), arrow_ids(post), planet_ids(post));
}

/// Whether `j` is the first place in `ids` that holds `id`.
pub open spec fn first_with_id(ids: Seq<u64>, id: u64, j: int) -> bool {
    &&& 0 <= j < ids.len()
    &&& ids[j] == id
    &&& forall|k: int| 0 <= k < j ==> ids[k] != id
}

pub open spec fn arrow_ids(w: World) -> Seq<u64> {
    w.arrows@.map_values(|a: ArrowBody| a.id)
}

pub open spec fn planet_ids(w: World) -> Seq<u64> {
    w.planets@.map_values(|p: PlanetBody| p.id)
}

/// Nothing that the rules track has changed.
pub open spec fn unchanged(pre: World, post: World) -> bool {
    &&& post.enemies@ == pre.enemies@
    &&& post.health_bars@ == pre.health_bars@
    &&& post.arrows@ == pre.arrows@
    &&& post.planets@ == pre.planets@
    &&& post.orbs@ == pre.orbs@
    &&& post.inventory.crystals@ == pre.inventory.crystals@
    &&& post.shake.level() == pre.shake.level()
    &&& post.enemies_counter == pre.enemies_counter
    &&& post.cues@ == pre.cues@
    &&& post.player == pre.player
    &&& post.last_damage == pre.last_damage
}

/// Whether an enemy `enemy_id` and an arrow `arrow_id` are both there.
pub open spec fn is_enemy_arrow_pair(w: World, enemy_id: u64, arrow_id: u64) -> bool {
    (exists|i: int| 0 <= i < w.enemies@.len() && (#[trigger] w.enemies@[i]).id == enemy_id)
        && arrow_ids(w).contains(arrow_id)
}

/// The outcome of a contact taken as `(enemy, arrow)`: the hit of the first
/// arrow with that id on the enemy with that id, or nothing if either is missing.
pub open spec fn enemy_pair_resolved(pre: World, post: World, enemy_id: u64, arrow_id: u64) -> bool {
    if is_enemy_arrow_pair(pre, enemy_id, arrow_id) {
        exists|i: int, j: int|
            0 <= i < pre.enemies@.len() && pre.enemies@[i].id == enemy_id && first_with_id(arrow_ids(pre), arrow_id, j)
                && #[trigger] enemy_hit(pre, post, i, j)
    } else {
        unchanged(pre, post)
    }
}

/// Whether a planet `planet_id` and an arrow `arrow_id` are both there.
pub open spec fn is_planet_arrow_pair(w: World, planet_id: u64, arrow_id: u64) -> bool {
    planet_ids(w).contains(planet_id) && arrow_ids(w).contains(arrow_id)
}

/// The outcome of a contact taken as `(planet, arrow)`.
pub open spec fn planet_pair_resolved(pre: World, post: World, planet_id: u64, arrow_id: u64) -> bool {
    if is_planet_arrow_pair(pre, planet_id, arrow_id) {
        exists|i: int, j: int|
            first_with_id(planet_ids(pre), planet_id, i) && first_with_id(arrow_ids(pre), arrow_id, j)
                && #[trigger] planet_hit(pre, post, i, j)
    } else {
        unchanged(pre, post)
    }
}

/// The outcome of one collision event: a started contact is tried as
/// (enemy, arrow) both ways round, then as (planet, arrow) one way round and,
/// if that was no such pair, the other; a stopped one changes nothing.
pub open spec fn event_resolved(pre: World, post: World, ev: CollisionEvent) -> bool {
    match ev {
        CollisionEvent::Stopped(_, _) => unchanged(pre, post),
        CollisionEvent::Started(a, b) => exists|w1: World, w2: World, w3: World|
            #![trigger enemy_pair_resolved(pre, w1, a, b), enemy_pair_resolved(w1, w2, b, a), planet_pair_resolved(w2, w3, a, b)]
            enemy_pair_resolved(pre, w1, a, b) && enemy_pair_resolved(w1, w2, b, a)
                && planet_pair_resolved(w2, w3, a, b) && if is_planet_arrow_pair(w2, a, b) {
                unchanged(w3, post)
            } else {
                planet_pair_resolved(w3, post, b, a)
            },
    }
}

/// Each world of `ws` follows from the one before by the event at its place.
pub open spec fn event_chain(ws: Seq<World>, evs: Seq<CollisionEvent>) -> bool {
    &&& ws.len() == evs.len() + 1
    &&& forall|i: int| 0 <= i < evs.len() ==> event_resolved(ws[i], ws[i + 1], #[trigger] evs[i])
}

/// The outcome of a tick's events, resolved in order.
pub open spec fn events_resolved(pre: World, post: World, evs: Seq<CollisionEvent>) -> bool {
    exists|ws: Seq<World>| #[trigger] event_chain(ws, evs) && ws[0] == pre && ws.last() == post
}

impl World {
    pub open spec fn wf(self) -> bool {
        &&& forall|i: int| 0 <= i < self.enemies@.len() ==> (#[trigger] self.enemies@[i]).wf()
        &&& forall|i: int, j: int|
            0 <= i < self.enemies@.len() && 0 <= j < self.enemies@.len() && i != j
                ==> #[trigger] self.enemies@[i].id != #[trigger] self.enemies@[j].id
        &&& forall|i: int| 0 <= i < self.arrows@.len() ==> (#[trigger] self.arrows@[i]).wf()
        &&& forall|i: int| 0 <= i < self.planets@.len() ==> (#[trigger] self.planets@[i]).wf()
        &&& forall|i: int| 0 <= i < self.orbs@.len() ==> (#[trigger] self.orbs@[i]).position.in_bounds()
        &&& self.inventory.wf()
        &&& self.enemies_counter.0 == self.enemies@.len()
        &&& unique_ids(arrow_ids(self))
        &&& unique_ids(planet_ids(self))
        &&& ids_apart(enemy_ids(self), arrow_ids(self))
        &&& ids_apart(enemy_ids(self), planet_ids(self))
        &&& ids_apart(arrow_ids(self), planet_ids(self))
        &&& self.player.position.in_bounds()
        &&& self.player.velocity.in_bounds()
        &&& 0 <= self.player.collider.0 <= COORD_LIMIT
    }

    /// An empty world around `player`.
    pub fn new(player: PlayerBody) -> (w: World)
        requires
            player.position.in_bounds(),
            player.velocity.in_bounds(),
            0 <= player.collider.0 <= COORD_LIMIT,
        ensures
            w.wf(),
            w.player == player,
            w.last_damage.0 == 0,
            w.enemies@.len() == 0,
            w.arrows@.len() == 0,
            w.planets@.len() == 0,
            w.health_bars@.len() == 0,
            w.orbs@.len() == 0,
            w.inventory.crystals@.len() == 0,
            w.enemies_counter.0 == 0,
            w.shake.level() == 0,
    {
        World {
            player,
            last_damage: LastDamageTime(0),
            enemies: Vec::new(),
            health_bars: Vec::new(),
            arrows: Vec::new(),
            planets: Vec::new(),
            orbs: Vec::new(),
            inventory: Inventory::new(),
            shake: ScreenShake::new(),
            enemies_counter: EnemiesCounter(0),
            cues: Vec::new(),
        }
    }

    /// Resolves the hit of the arrow at `arrow` on the enemy at `enemy`: the
    /// enemy loses the arrow's damage and takes its velocity on top of its
    /// own, the arrow goes, and the screen shakes. An enemy left with no hit
    /// points dies: it goes with its health bars, the counter drops by one,
    /// the screen shakes harder, and `ENEMY_REWARD` experience is scattered
    /// where it stood.
    pub fn handle_enemy_damage(&mut self, enemy: usize, arrow: usize)
        requires
            old(self).wf(),
            enemy < old(self).enemies@.len(),
            arrow < old(self).arrows@.len(),
        ensures
            final(self).wf(),
            enemy_hit(*old(self), *final(self), enemy as int, arrow as int),
    {
        let e = self.enemies[enemy];
        let a = self.arrows[arrow];
        assert(e.wf() && a.wf());
        let hp = e.hp.current - (a.arrow.damage as i64);
        self.arrows.remove(arrow);
        self.shake.set(HIT_TRAUMA);
        self.cues.push(Cue::DamageParticles(a.position));
        self.cues.push(Cue::HurtSound);
        let velocity = Point {
            x: knock_axis(e.velocity.x, a.velocity.x),
            y: knock_axis(e.velocity.y, a.velocity.y),
        };
        if hp <= 0 {
            let ghost before = self.enemies@;
            self.enemies.remove(enemy);
            proof {
                assert forall|i: int, j: int|
                    0 <= i < self.enemies@.len() && 0 <= j < self.enemies@.len() && i != j
                        implies #[trigger] self.enemies@[i].id != #[trigger] self.enemies@[j].id by {
                    let i0 = if i < enemy { i } else { i + 1 };
                    let j0 = if j < enemy { j } else { j + 1 };
                    assert(self.enemies@[i] == before[i0]);
                    assert(self.enemies@[j] == before[j0]);
                }
                assert forall|i: int| 0 <= i < self.enemies@.len() implies (#[trigger] self.enemies@[i]).wf() by {
                    let i0 = if i < enemy { i } else { i + 1 };
                    assert(self.enemies@[i] == before[i0]);
                }
            }
            despawn_health_bars(&mut self.health_bars, e.id);
            self.shake.set(DEATH_TRAUMA);
            self.enemies_counter = EnemiesCounter(self.enemies_counter.0 - 1);
            self.cues.push(Cue::DeathParticles(e.position));
            let ghost old_orbs = self.orbs@;
            let mut dropped = spawn_orbs(ENEMY_REWARD, e.position);
            let ghost new_orbs = dropped@;
            self.orbs.append(&mut dropped);
            proof {
                assert(self.orbs@.subrange(0, old_orbs.len() as int) == old_orbs);
                assert(self.orbs@.subrange(old_orbs.len() as int, self.orbs@.len() as int) == new_orbs);
                assert forall|i: int| 0 <= i < self.orbs@.len() implies (#[trigger] self.orbs@[i]).position.in_bounds() by {
                    if i >= old_orbs.len() {
                        assert(self.orbs@[i] == new_orbs[i - old_orbs.len()]);
                    }
                }
                assert forall|i: int| old_orbs.len() <= i < self.orbs@.len() implies {
                    let o = #[trigger] self.orbs@[i];
                    &&& -ORB_JITTER <= o.position.x - e.position.x <= ORB_JITTER
                    &&& -ORB_JITTER <= o.position.y - e.position.y <= ORB_JITTER
                    &&& o.value >= 1
                } by {
                    assert(self.orbs@[i] == new_orbs[i - old_orbs.len()]);
                }
            }
        } else {
            let hit = EnemyBody { hp: HP { current: hp, max: e.hp.max }, velocity, ..e };
            self.enemies.set(enemy, hit);
            proof {
                assert forall|i: int, j: int|
                    0 <= i < self.enemies@.len() && 0 <= j < self.enemies@.len() && i != j
                        implies #[trigger] self.enemies@[i].id != #[trigger] self.enemies@[j].id by {
                    assert(old(self).enemies@[i].id == self.enemies@[i].id);
                    assert(old(self).enemies@[j].id == self.enemies@[j].id);
                }
            }
        }
        proof {
            let old_arrows = old(self).arrows@;
            assert forall|i: int| 0 <= i < self.arrows@.len() implies (#[trigger] self.arrows@[i]).wf() by {
                let i0 = if i < arrow { i } else { i + 1 };
                assert(self.arrows@[i] == old_arrows[i0]);
            }
            let pre = *old(self);
            lemma_remove_ids(arrow_ids(pre), arrow as int);
            assert(arrow_ids(*self) =~= arrow_ids(pre).remove(arrow as int));
            if hp <= 0 {
                lemma_remove_ids(enemy_ids(pre), enemy as int);
                assert(enemy_ids(*self) =~= enemy_ids(pre).remove(enemy as int));
            } else {
                assert(enemy_ids(*self) =~= enemy_ids(pre));
                lemma_ids_within_self(enemy_ids(pre));
            }
            assert(planet_ids(*self) =~= planet_ids(pre));
            lemma_ids_within_self(planet_ids(pre));
            lemma_ids_kept(pre, *self);
        }
    }

    /// Resolves the hit of the arrow at `arrow` on the planet at `planet`:
    /// the planet loses the arrow's damage, the arrow goes, and the screen
    /// shakes. A planet left with no hit points goes, and a crystal of its
    /// colour and effect joins the inventory.
    pub fn collision(&mut self, planet: usize, arrow: usize)
        requires
            old(self).wf(),
            planet < old(self).planets@.len(),
            arrow < old(self).arrows@.len(),
        ensures
            final(self).wf(),
            planet_hit(*old(self), *final(self), planet as int, arrow as int),
    {
        let p = self.planets[planet];
        let a = self.arrows[arrow];
        assert(p.wf() && a.wf());
        let hp = p.planet.hp - (a.arrow.damage as i64);
        self.arrows.remove(arrow);
        self.shake.set(HIT_TRAUMA);
        self.cues.push(Cue::DamageParticles(a.position));
        self.cues.push(Cue::HurtSound);
        let ghost before = self.planets@;
        if hp <= 0 {
            self.planets.remove(planet);
            self.inventory.crystals.push(Crystal {
                color: p.planet.color,
                effect: p.planet.effect,
                phase: 0,
                resonance: 0,
            });
            proof {
                assert forall|i: int| 0 <= i < self.planets@.len() implies (#[trigger] self.planets@[i]).wf() by {
                    let i0 = if i < planet { i } else { i + 1 };
                    assert(self.planets@[i] == before[i0]);
                }
                let cs = self.inventory.crystals@;
                assert forall|i: int| 0 <= i < cs.len() implies (#[trigger] cs[i]).wf() by {
                    if i < cs.len() - 1 {
                        assert(cs[i] == old(self).inventory.crystals@[i]);
                    }
                }
            }
        } else {
            self.planets.set(planet, PlanetBody { planet: Planet { hp, ..p.planet }, ..p });
        }
        proof {
            let old_arrows = old(self).arrows@;
            assert forall|i: int| 0 <= i < self.arrows@.len() implies (#[trigger] self.arrows@[i]).wf() by {
                let i0 = if i < arrow { i } else { i + 1 };
                assert(self.arrows@[i] == old_arrows[i0]);
            }
            let pre = *old(self);
            lemma_remove_ids(arrow_ids(pre), arrow as int);
            assert(arrow_ids(*self) =~= arrow_ids(pre).remove(arrow as int));
            if hp <= 0 {
                lemma_remove_ids(planet_ids(pre), planet as int);
                assert(planet_ids(*self) =~= planet_ids(pre).remove(planet as int));
            } else {
                assert(planet_ids(*self) =~= planet_ids(pre));
                lemma_ids_within_self(planet_ids(pre));
                assert(unique_ids(planet_ids(*self)));
            }
            assert(enemy_ids(*self) =~= enemy_ids(pre));
            lemma_ids_within_self(enemy_ids(pre));
            lemma_ids_kept(pre, *self);
        }
    }

    /// Index of the enemy whose id is `id`.
    pub fn find_enemy(&self, id: u64) -> (r: Option<usize>)
        ensures
            r matches Some(i) ==> i < self.enemies@.len() && self.enemies@[i as int].id == id,
            r is None ==> forall|i: int| 0 <= i < self.enemies@.len() ==> (#[trigger] self.enemies@[i]).id != id,
    {
        let mut i: usize = 0;
        while i < self.enemies.len()
            invariant
                0 <= i <= self.enemies@.len(),
                forall|j: int| 0 <= j < i ==> (#[trigger] self.enemies@[j]).id != id,
            decreases self.enemies@.len() - i,
        {
            if self.enemies[i].id == id {
                return Some(i);
            }
            i = i + 1;
        }
        None
    }

    /// Index of the first arrow whose id is `id`.
    pub fn find_arrow(&self, id: u64) -> (r: Option<usize>)
        ensures
            r matches Some(i) ==> first_with_id(self.arrows@.map_values(|a: ArrowBody| a.id), id, i as int),
            r is None ==> forall|i: int| 0 <= i < self.arrows@.len() ==> (#[trigger] self.arrows@[i]).id != id,
    {
        let mut i: usize = 0;
        while i < self.arrows.len()
            invariant
                0 <= i <= self.arrows@.len(),
                forall|j: int| 0 <= j < i ==> (#[trigger] self.arrows@[j]).id != id,
            decreases self.arrows@.len() - i,
        {
            if self.arrows[i].id == id {
                return Some(i);
            }
            i = i + 1;
        }
        None
    }

    /// Index of the first planet whose id is `id`.
    pub fn find_planet(&self, id: u64) -> (r: Option<usize>)
        ensures
            r matches Some(i) ==> first_with_id(self.planets@.map_values(|p: PlanetBody| p.id), id, i as int),
            r is None ==> forall|i: int| 0 <= i < self.planets@.len() ==> (#[trigger] self.planets@[i]).id != id,
    {
        let mut i: usize = 0;
        while i < self.planets.len()
            invariant
                0 <= i <= self.planets@.len(),
                forall|j: int| 0 <= j < i ==> (#[trigger] self.planets@[j]).id != id,
            decreases self.planets@.len() - i,
        {
            if self.planets[i].id == id {
                return Some(i);
            }
            i = i + 1;
        }
        None
    }

    /// Resolves an arrow hit on an enemy for a pair of colliding entities,
    /// taken as `(enemy, arrow)`; says whether the pair was one.
    pub fn enemy_hit_by_ids(&mut self, enemy_id: u64, arrow_id: u64) -> (hit: bool)
        requires
            old(self).wf(),
        ensures
            final(self).wf(),
            hit == is_enemy_arrow_pair(*old(self), enemy_id, arrow_id),
            enemy_pair_resolved(*old(self), *final(self), enemy_id, arrow_id),
    {
        match self.find_enemy(enemy_id) {
            Some(e) => match self.find_arrow(arrow_id) {
                Some(a) => {
                    proof {
                        assert(arrow_ids(*old(self))[a as int] == arrow_id);
                    }
                    self.handle_enemy_damage(e, a);
                    proof {
                        assert(enemy_hit(*old(self), *self, e as int, a as int));
                    }
                    true
                },
                None => {
                    proof {
                        assert forall|k: int| 0 <= k < arrow_ids(*old(self)).len() implies arrow_ids(*old(self))[k]
                            != arrow_id by {
                            assert(old(self).arrows@[k].id != arrow_id);
                        }
                    }
                    false
                },
            },
            None => false,
        }
    }

    /// Resolves an arrow hit on a planet for a pair of colliding entities,
    /// taken as `(planet, arrow)`; says whether the pair was one.
    pub fn planet_hit_by_ids(&mut self, planet_id: u64, arrow_id: u64) -> (hit: bool)
        requires
            old(self).wf(),
        ensures
            final(self).wf(),
            hit == is_planet_arrow_pair(*old(self), planet_id, arrow_id),
            planet_pair_resolved(*old(self), *final(self), planet_id, arrow_id),
    {
        match self.find_planet(planet_id) {
            Some(p) => match self.find_arrow(arrow_id) {
                Some(a) => {
                    proof {
                        assert(arrow_ids(*old(self))[a as int] == arrow_id);
                        assert(planet_ids(*old(self))[p as int] == planet_id);
                    }
                    self.collision(p, a);
                    proof {
                        assert(planet_hit(*old(self), *self, p as int, a as int));
                    }
                    true
                },
                None => {
                    proof {
                        assert forall|k: int| 0 <= k < arrow_ids(*old(self)).len() implies arrow_ids(*old(self))[k]
                            != arrow_id by {
                            assert(old(self).arrows@[k].id != arrow_id);
                        }
                    }
                    false
                },
            },
            None => {
                proof {
                    assert forall|k: int| 0 <= k < planet_ids(*old(self)).len() implies planet_ids(*old(self))[k]
                        != planet_id by {
                        assert(old(self).planets@[k].id != planet_id);
                    }
                }
                false
            },
        }
    }

    /// Whether no two enemies share an id, given as a list of positions in
    /// `all` that rise strictly.
    proof fn lemma_kept_ids_unique(all: Seq<EnemyBody>, kept: Seq<EnemyBody>, idx: Seq<int>)
        requires
            forall|i: int, j: int|
                0 <= i < all.len() && 0 <= j < all.len() && i != j ==> #[trigger] all[i].id != #[trigger] all[j].id,
            idx.len() == kept.len(),
            forall|k: int| 0 <= k < idx.len() ==> 0 <= #[trigger] idx[k] < all.len() && kept[k] == all[idx[k]],
            forall|k: int, l: int| 0 <= k < l < idx.len() ==> #[trigger] idx[k] < #[trigger] idx[l],
        ensures
            forall|i: int, j: int|
                0 <= i < kept.len() && 0 <= j < kept.len() && i != j ==> #[trigger] kept[i].id != #[trigger] kept[j].id,
    {
        assert forall|i: int, j: int|
            0 <= i < kept.len() && 0 <= j < kept.len() && i != j implies #[trigger] kept[i].id != #[trigger] kept[j].id by {
            if i < j {
                assert(idx[i] < idx[j]);
            } else {
                assert(idx[j] < idx[i]);
            }
        }
    }

    /// Every enemy of three or four sides that overlaps the player hurts the
    /// player by `ENEMY_DAMAGE` and is consumed, with its health bars; the
    /// counter drops by one for each. Any contact records the time `now_ms`
    /// as the last damage and shakes the screen.
    pub fn handle_collision(&mut self, now_ms: u64)
        requires
            old(self).wf(),
        ensures
            final(self).wf(),
            final(self).enemies@ == old(self).enemies@.filter(spares(old(self).player)),
            final(self).health_bars@ == contact_bars(old(self).health_bars@, old(self).enemies@, old(self).player),
            final(self).cues@ == old(self).cues@ + contact_cues(old(self).enemies@, old(self).player),
            final(self).player.health.current == hurt(
                old(self).player.health.current as int,
                contact_count(old(self).enemies@, old(self).player),
            ),
            final(self).player == (PlayerBody { health: PlayerHealth { current: final(self).player.health.current, ..old(self).player.health }, ..old(self).player }),
            final(self).enemies_counter.0 == old(self).enemies_counter.0 - contact_count(old(self).enemies@, old(self).player),
            contact_count(old(self).enemies@, old(self).player) > 0 ==> final(self).last_damage.0 == now_ms
                && final(self).shake.level() == clamped(CONTACT_TRAUMA as int),
            contact_count(old(self).enemies@, old(self).player) == 0 ==> final(self).last_damage == old(self).last_damage
                && final(self).shake.level() == old(self).shake.level(),
            final(self).arrows@ == old(self).arrows@,
            final(self).planets@ == old(self).planets@,
            final(self).orbs@ == old(self).orbs@,
            final(self).inventory == old(self).inventory,
    {
        let ghost all = self.enemies@;
        let ghost player = self.player;
        let ghost bars0 = self.health_bars@;
        let ghost h0 = self.player.health.current as int;
        let ghost shake0 = self.shake.level();
        let ghost last0 = self.last_damage;
        let reach_of = self.player.collider.0;
        let pos = self.player.position;
        let mut kept: Vec<EnemyBody> = Vec::new();
        let ghost mut idx: Seq<int> = Seq::empty();
        let mut i: usize = 0;
        proof {
            reveal(Seq::filter);
            assert(all.subrange(0, 0).len() == 0);
        }
        while i < self.enemies.len()
            invariant
                0 <= i <= all.len(),
                self.enemies@ == all,
                self.player == (PlayerBody { health: PlayerHealth { current: self.player.health.current, ..player.health }, ..player }),
                reach_of == player.collider.0,
                pos == player.position,
                player.position.in_bounds(),
                0 <= player.collider.0 <= COORD_LIMIT,
                forall|j: int| 0 <= j < all.len() ==> (#[trigger] all[j]).wf(),
                kept@ == all.subrange(0, i as int).filter(spares(player)),
                idx.len() == kept@.len(),
                forall|k: int| 0 <= k < idx.len() ==> 0 <= #[trigger] idx[k] < i && kept@[k] == all[idx[k]],
                forall|k: int, l: int| 0 <= k < l < idx.len() ==> #[trigger] idx[k] < #[trigger] idx[l],
                self.health_bars@ == contact_bars(bars0, all.subrange(0, i as int), player),
                self.cues@ == old(self).cues@ + contact_cues(all.subrange(0, i as int), player),
                self.player.health.current == hurt(h0, contact_count(all.subrange(0, i as int), player)),
                contact_count(all.subrange(0, i as int), player) > 0 ==> self.last_damage.0 == now_ms
                    && self.shake.level() == clamped(CONTACT_TRAUMA as int),
                contact_count(all.subrange(0, i as int), player) == 0 ==> self.last_damage == last0
                    && self.shake.level() == shake0,
                self.arrows@ == old(self).arrows@,
                self.planets@ == old(self).planets@,
                self.orbs@ == old(self).orbs@,
                self.inventory == old(self).inventory,
                self.enemies_counter == old(self).enemies_counter,
            decreases all.len() - i,
        {
            let e = self.enemies[i];
            let ghost pre = all.subrange(0, i as int);
            proof {
                assert(all.subrange(0, i + 1) == pre.push(e));
                assert(pre.push(e).drop_last() == pre);
                pre.lemma_filter_push(e, spares(player));
                assert(e.wf());
                lemma_filter_len_le(pre, spares(player));
            }
            let shape = e.enemy.sides == 3 || e.enemy.sides == 4;
            if shape && within_reach(e.position, pos, e.collider.0 + reach_of) {
                let h = self.player.health.current;
                self.player.health.current = if h < i64::MIN + ENEMY_DAMAGE { i64::MIN } else { h - ENEMY_DAMAGE };
                despawn_health_bars(&mut self.health_bars, e.id);
                self.last_damage = LastDamageTime(now_ms);
                self.shake.set(CONTACT_TRAUMA);
                self.cues.push(Cue::DamageParticles(e.position));
                proof {
                    let c0 = old(self).cues@;
                    let cs = contact_cues(pre, player);
                    assert(c0 + cs.push(Cue::DamageParticles(e.position)) == (c0 + cs).push(Cue::DamageParticles(e.position)));
                }
            } else {
                kept.push(e);
                proof {
                    idx = idx.push(i as int);
                }
            }
            i = i + 1;
        }
        proof {
            assert(all.subrange(0, all.len() as int) == all);
            Self::lemma_kept_ids_unique(all, kept@, idx);
            lemma_filter_len_le(all, spares(player));
            assert forall|k: int| 0 <= k < kept@.len() implies (#[trigger] kept@[k]).wf() by {
                assert(kept@[k] == all[idx[k]]);
            }
        }
        let n = kept.len();
        self.enemies = kept;
        self.enemies_counter = EnemiesCounter(n as i32);
        proof {
            let pre = *old(self);
            assert forall|k: int| 0 <= k < enemy_ids(*self).len() implies enemy_ids(pre).contains(
                #[trigger] enemy_ids(*self)[k],
            ) by {
                assert(enemy_ids(*self)[k] == enemy_ids(pre)[idx[k]]);
            }
            assert(arrow_ids(*self) =~= arrow_ids(pre));
            assert(planet_ids(*self) =~= planet_ids(pre));
            lemma_ids_within_self(arrow_ids(pre));
            lemma_ids_within_self(planet_ids(pre));
            lemma_ids_kept(pre, *self);
        }
    }

    /// Resolves every collision of the tick, in order (see `event_resolved`).
    pub fn collision_events_system(&mut self, events: &Vec<CollisionEvent>)
        requires
            old(self).wf(),
        ensures
            final(self).wf(),
            events_resolved(*old(self), *final(self), events@),
    {
        let mut k: usize = 0;
        let ghost mut ws: Seq<World> = seq![*self];
        while k < events.len()
            invariant
                0 <= k <= events@.len(),
                self.wf(),
                event_chain(ws, events@.subrange(0, k as int)),
                ws[0] == *old(self),
                ws.last() == *self,
            decreases events@.len() - k,
        {
            let ghost before = *self;
            let ev = events[k];
            match ev {
                CollisionEvent::Started(e1, e2) => {
                    self.enemy_hit_by_ids(e1, e2);
                    let ghost w1 = *self;
                    self.enemy_hit_by_ids(e2, e1);
                    let ghost w2 = *self;
                    let first = self.planet_hit_by_ids(e1, e2);
                    let ghost w3 = *self;
                    if !first {
                        self.planet_hit_by_ids(e2, e1);
                    }
                    proof {
                        assert(enemy_pair_resolved(before, w1, e1, e2));
                        assert(enemy_pair_resolved(w1, w2, e2, e1));
                        assert(planet_pair_resolved(w2, w3, e1, e2));
                        assert(event_resolved(before, *self, ev));
                    }
                },
                CollisionEvent::Stopped(_, _) => {
                    assert(event_resolved(before, *self, ev));
                },
            }
            proof {
                let prev = ws;
                ws = ws.push(*self);
                let done = events@.subrange(0, k + 1);
                assert forall|i: int| 0 <= i < done.len() implies event_resolved(ws[i], ws[i + 1], #[trigger] done[i]) by {
                    if i < k {
                        assert(done[i] == events@.subrange(0, k as int)[i]);
                        assert(ws[i] == prev[i] && ws[i + 1] == prev[i + 1]);
                    } else {
                        assert(ws[i] == before);
                    }
                }
            }
            k = k + 1;
        }
        assert(events@.subrange(0, events@.len() as int) == events@);
        assert(event_chain(ws, events@));
    }

    /// Steers every enemy for this tick (see `steered`).
    pub fn handle_ai(&mut self)
        requires
            old(self).wf(),
        ensures
            final(self).wf(),
            final(self).enemies@.len() == old(self).enemies@.len(),
            forall|i: int| 0 <= i < final(self).enemies@.len() ==> {
                let e = #[trigger] old(self).enemies@[i];
                let p = old(self).player;
                &&& final(self).enemies@[i] == EnemyBody { velocity: final(self).enemies@[i].velocity, ..e }
                &&& (final(self).enemies@[i].velocity.x as int, final(self).enemies@[i].velocity.y as int)
                    == steered(e.enemy.sides, e.position, e.velocity, p.position, p.velocity)
                &&& (e.enemy.sides == 3 || e.enemy.sides == 4)
                    && norm_sq(e.velocity.x as int, e.velocity.y as int) <= ENEMY_SPEED * ENEMY_SPEED
                    ==> norm_sq(final(self).enemies@[i].velocity.x as int, final(self).enemies@[i].velocity.y as int)
                    <= ENEMY_SPEED * ENEMY_SPEED
            },
            final(self).inventory == old(self).inventory,
            final(self).shake.level() == old(self).shake.level(),
            final(self).cues@ == old(self).cues@,
            final(self).last_damage == old(self).last_damage,
            final(self).player == old(self).player,
            final(self).arrows@ == old(self).arrows@,
            final(self).planets@ == old(self).planets@,
            final(self).health_bars@ == old(self).health_bars@,
            final(self).orbs@ == old(self).orbs@,
            final(self).enemies_counter == old(self).enemies_counter,
    {
        let player = self.player;
        let mut i: usize = 0;
        while i < self.enemies.len()
            invariant
                0 <= i <= self.enemies@.len(),
                self.enemies@.len() == old(self).enemies@.len(),
                self.player == player,
                player == old(self).player,
                old(self).wf(),
                self.enemies_counter == old(self).enemies_counter,
                self.arrows@ == old(self).arrows@,
                self.planets@ == old(self).planets@,
                self.health_bars@ == old(self).health_bars@,
                self.orbs@ == old(self).orbs@,
                self.inventory == old(self).inventory,
                forall|j: int| i <= j < self.enemies@.len() ==> self.enemies@[j] == #[trigger] old(self).enemies@[j],
                forall|j: int| 0 <= j < i ==> {
                    let e = #[trigger] old(self).enemies@[j];
                    &&& self.enemies@[j] == EnemyBody { velocity: self.enemies@[j].velocity, ..e }
                    &&& (self.enemies@[j].velocity.x as int, self.enemies@[j].velocity.y as int)
                        == steered(e.enemy.sides, e.position, e.velocity, player.position, player.velocity)
                    &&& self.enemies@[j].velocity.in_bounds()
                    &&& (e.enemy.sides == 3 || e.enemy.sides == 4)
                        && norm_sq(e.velocity.x as int, e.velocity.y as int) <= ENEMY_SPEED * ENEMY_SPEED
                        ==> norm_sq(self.enemies@[j].velocity.x as int, self.enemies@[j].velocity.y as int)
                        <= ENEMY_SPEED * ENEMY_SPEED
                },
                self.shake.level() == old(self).shake.level(),
                self.cues@ == old(self).cues@,
                self.last_damage == old(self).last_damage,
            decreases self.enemies@.len() - i,
        {
            let e = self.enemies[i];
            assert(old(self).enemies@[i as int].wf());
            let v = steer(e.enemy.sides, e.position, e.velocity, player.position, player.velocity);
            self.enemies.set(i, EnemyBody { velocity: v, ..e });
            i = i + 1;
        }
        proof {
            let es = self.enemies@;
            let os = old(self).enemies@;
            assert forall|a: int, b: int|
                0 <= a < es.len() && 0 <= b < es.len() && a != b implies #[trigger] es[a].id != #[trigger] es[b].id by {
                assert(os[a].id == es[a].id);
                assert(os[b].id == es[b].id);
            }
            assert forall|a: int| 0 <= a < es.len() implies (#[trigger] es[a]).wf() by {
                assert(os[a].wf());
            }
            assert forall|a: int| 0 <= a < es.len() implies enemy_ids(*self)[a] == enemy_ids(*old(self))[a] by {
                assert(os[a].id == es[a].id);
            }
            assert(enemy_ids(*self) =~= enemy_ids(*old(self)));
            assert(arrow_ids(*self) =~= arrow_ids(*old(self)));
            assert(planet_ids(*self) =~= planet_ids(*old(self)));
        }
    }

    /// Whether any body of the world carries `id`.
    pub fn id_in_use(&self, id: u64) -> (r: bool)
        ensures
            r == id_used(*self, id),
    {
        let e = self.find_enemy(id);
        let a = self.find_arrow(id);
        let p = self.find_planet(id);
        proof {
            if e is None {
                assert forall|k: int| 0 <= k < enemy_ids(*self).len() implies enemy_ids(*self)[k] != id by {
                    assert(self.enemies@[k].id != id);
                }
            } else {
                assert(enemy_ids(*self)[e->Some_0 as int] == id);
            }
            if a is None {
                assert forall|k: int| 0 <= k < arrow_ids(*self).len() implies arrow_ids(*self)[k] != id by {
                    assert(self.arrows@[k].id != id);
                }
            } else {
                assert(arrow_ids(*self)[a->Some_0 as int] == id);
            }
            if p is None {
                assert forall|k: int| 0 <= k < planet_ids(*self).len() implies planet_ids(*self)[k] != id by {
                    assert(self.planets@[k].id != id);
                }
            } else {
                assert(planet_ids(*self)[p->Some_0 as int] == id);
            }
        }
        e.is_some() || a.is_some() || p.is_some()
    }

    /// Adds an enemy with its health bar; refused, with nothing changed, when
    /// its id is in use or the counter is full.
    pub fn add_enemy(&mut self, body: EnemyBody) -> (added: bool)
        requires
            old(self).wf(),
            body.wf(),
        ensures
            final(self).wf(),
            added == (!id_used(*old(self), body.id) && old(self).enemies_counter.0 < i32::MAX),
            added ==> final(self).enemies@ == old(self).enemies@.push(body)
                && final(self).health_bars@ == old(self).health_bars@.push(HealthBar { owner: HealthBarOwner(body.id) })
                && final(self).enemies_counter.0 == old(self).enemies_counter.0 + 1,
            !added ==> final(self).enemies@ == old(self).enemies@ && final(self).health_bars@ == old(self).health_bars@
                && final(self).enemies_counter == old(self).enemies_counter,
            final(self).player == old(self).player,
            final(self).arrows@ == old(self).arrows@,
            final(self).planets@ == old(self).planets@,
            final(self).orbs@ == old(self).orbs@,
            final(self).cues@ == old(self).cues@,
            final(self).inventory == old(self).inventory,
            final(self).last_damage == old(self).last_damage,
            final(self).shake.level() == old(self).shake.level(),
    {
        if self.enemies_counter.0 == i32::MAX {
            return false;
        }
        if self.id_in_use(body.id) {
            return false;
        }
        let ghost pre = *self;
        let ghost before = self.enemies@;
        self.enemies.push(body);
        self.health_bars.push(HealthBar { owner: HealthBarOwner(body.id) });
        self.enemies_counter = EnemiesCounter(self.enemies_counter.0 + 1);
        proof {
            let es = self.enemies@;
            assert forall|a: int, b: int|
                0 <= a < es.len() && 0 <= b < es.len() && a != b implies #[trigger] es[a].id != #[trigger] es[b].id by {
                if a < before.len() && b < before.len() {
                    assert(es[a] == before[a] && es[b] == before[b]);
                } else if a < before.len() {
                    assert(es[a] == before[a]);
                    assert(enemy_ids(pre)[a] == es[a].id);
                } else {
                    assert(es[b] == before[b]);
                    assert(enemy_ids(pre)[b] == es[b].id);
                }
            }
            assert forall|a: int| 0 <= a < es.len() implies (#[trigger] es[a]).wf() by {
                if a < before.len() {
                    assert(es[a] == before[a]);
                }
            }
            assert(enemy_ids(*self) =~= enemy_ids(pre).push(body.id));
            assert(arrow_ids(*self) =~= arrow_ids(pre));
            assert(planet_ids(*self) =~= planet_ids(pre));
            lemma_apart_push(enemy_ids(pre), arrow_ids(pre), body.id);
            lemma_apart_push(enemy_ids(pre), planet_ids(pre), body.id);
        }
        true
    }

    /// Adds an arrow in flight; refused, with nothing changed, when its id is
    /// in use.
    pub fn add_arrow(&mut self, body: ArrowBody) -> (added: bool)
        requires
            old(self).wf(),
            body.wf(),
        ensures
            final(self).wf(),
            added == !id_used(*old(self), body.id),
            added ==> final(self).arrows@ == old(self).arrows@.push(body),
            !added ==> final(self).arrows@ == old(self).arrows@,
            final(self).enemies@ == old(self).enemies@,
            final(self).planets@ == old(self).planets@,
            final(self).health_bars@ == old(self).health_bars@,
            final(self).player == old(self).player,
    {
        if self.id_in_use(body.id) {
            return false;
        }
        let ghost pre = *self;
        self.arrows.push(body);
        proof {
            let a = self.arrows@;
            assert forall|k: int| 0 <= k < a.len() implies (#[trigger] a[k]).wf() by {
                if k < pre.arrows@.len() {
                    assert(a[k] == pre.arrows@[k]);
                }
            }
            assert(arrow_ids(*self) =~= arrow_ids(pre).push(body.id));
            assert(enemy_ids(*self) =~= enemy_ids(pre));
            assert(planet_ids(*self) =~= planet_ids(pre));
            lemma_unique_push(arrow_ids(pre), body.id);
            lemma_apart_push_right(enemy_ids(pre), arrow_ids(pre), body.id);
            lemma_apart_push(arrow_ids(pre), planet_ids(pre), body.id);
        }
        true
    }

    /// Adds a planet; refused, with nothing changed, when its id is in use.
    pub fn add_planet(&mut self, body: PlanetBody) -> (added: bool)
        requires
            old(self).wf(),
            body.wf(),
        ensures
            final(self).wf(),
            added == !id_used(*old(self), body.id),
            added ==> final(self).planets@ == old(self).planets@.push(body),
            !added ==> final(self).planets@ == old(self).planets@,
            final(self).enemies@ == old(self).enemies@,
            final(self).arrows@ == old(self).arrows@,
            final(self).player == old(self).player,
    {
        if self.id_in_use(body.id) {
            return false;
        }
        let ghost pre = *self;
        self.planets.push(body);
        proof {
            let a = self.planets@;
            assert forall|k: int| 0 <= k < a.len() implies (#[trigger] a[k]).wf() by {
                if k < pre.planets@.len() {
                    assert(a[k] == pre.planets@[k]);
                }
            }
            assert(planet_ids(*self) =~= planet_ids(pre).push(body.id));
            assert(enemy_ids(*self) =~= enemy_ids(pre));
            assert(arrow_ids(*self) =~= arrow_ids(pre));
            lemma_unique_push(planet_ids(pre), body.id);
            lemma_apart_push_right(enemy_ids(pre), planet_ids(pre), body.id);
            lemma_apart_push_right(arrow_ids(pre), planet_ids(pre), body.id);
        }
        true
    }
}

} // verus!
