use orbit_archer::combat::{
    Arrow, ArrowBody, CircleCollider, CollisionEvent, Cue, Enemy, EnemyBody, HealthBar, HealthBarOwner, Planet,
    PlanetBody, PlayerBody, PlayerHealth, World, HP,
};
use orbit_archer::geometry::Point;
use orbit_archer::loot::{ColorId, Effect, EffectType};

fn player() -> PlayerBody {
    PlayerBody {
        position: Point::zero(),
        velocity: Point::zero(),
        health: PlayerHealth { current: 36_000, per_segment: 10, num_segments: 4 },
        collider: CircleCollider(300),
    }
}

fn enemy(id: u64, sides: i32, at: Point) -> EnemyBody {
    EnemyBody {
        id,
        enemy: Enemy { sides },
        hp: HP { current: 4000, max: 4000 },
        position: at,
        velocity: Point::new(10, 0),
        collider: CircleCollider(300),
    }
}

fn arrow(id: u64, damage: u64) -> ArrowBody {
    ArrowBody { id, arrow: Arrow { damage }, position: Point::new(1900, 0), velocity: Point::new(3000, 0) }
}

#[test]
fn a_hit_takes_the_damage_and_pushes_back() {
    let mut w = World::new(player());
    assert!(w.add_enemy(enemy(1, 3, Point::new(2000, 0))));
    w.arrows.push(arrow(100, 1500));
    w.handle_enemy_damage(0, 0);
    assert_eq!(w.enemies.len(), 1);
    assert_eq!(w.enemies[0].hp.current, 2500);
    assert_eq!(w.enemies[0].velocity, Point::new(3010, 0));
    assert!(w.arrows.is_empty());
    assert_eq!(w.enemies_counter.0, 1);
    assert_eq!(w.health_bars.len(), 1);
    assert_eq!(w.shake.trauma(), 1000);
    assert_eq!(w.cues, vec![Cue::DamageParticles(Point::new(1900, 0)), Cue::HurtSound]);
    assert!(w.orbs.is_empty());
}

#[test]
fn a_killing_hit_removes_enemy_and_bar_and_drops_orbs() {
    let mut w = World::new(player());
    assert!(w.add_enemy(enemy(1, 3, Point::new(2000, 0))));
    assert!(w.add_enemy(enemy(2, 4, Point::new(-2000, 0))));
    w.arrows.push(arrow(100, 4000));
    w.handle_enemy_damage(0, 0);
    assert_eq!(w.enemies.len(), 1);
    assert_eq!(w.enemies[0].id, 2);
    assert_eq!(w.health_bars, vec![HealthBar { owner: HealthBarOwner(2) }]);
    assert_eq!(w.enemies_counter.0, 1);
    assert_eq!(w.shake.trauma(), 1000);
    assert_eq!(w.orbs.len(), 4);
    assert_eq!(w.orbs.iter().map(|o| o.value).sum::<u64>(), 5000);
    assert_eq!(w.cues[2], Cue::DeathParticles(Point::new(2000, 0)));
}

#[test]
fn collision_events_resolve_in_either_order() {
    let mut w = World::new(player());
    assert!(w.add_enemy(enemy(1, 3, Point::new(2000, 0))));
    w.arrows.push(arrow(100, 1000));
    w.arrows.push(arrow(101, 1000));
    w.collision_events_system(&vec![CollisionEvent::Started(100, 1), CollisionEvent::Started(1, 101)]);
    assert_eq!(w.enemies[0].hp.current, 2000);
    assert!(w.arrows.is_empty());
}

#[test]
fn stopped_events_change_nothing() {
    let mut w = World::new(player());
    assert!(w.add_enemy(enemy(1, 3, Point::new(2000, 0))));
    w.arrows.push(arrow(100, 1000));
    w.collision_events_system(&vec![CollisionEvent::Stopped(100, 1), CollisionEvent::Started(7, 8)]);
    assert_eq!(w.enemies[0].hp.current, 4000);
    assert_eq!(w.arrows.len(), 1);
    assert!(w.cues.is_empty());
}

#[test]
fn duplicate_enemy_ids_are_refused() {
    let mut w = World::new(player());
    assert!(w.add_enemy(enemy(1, 3, Point::new(2000, 0))));
    assert!(!w.add_enemy(enemy(1, 4, Point::new(0, 2000))));
    assert_eq!(w.enemies.len(), 1);
    assert_eq!(w.enemies_counter.0, 1);
}

fn planet(id: u64, hp: i64) -> PlanetBody {
    PlanetBody {
        id,
        planet: Planet {
            color: ColorId::new(10, 20, 30),
            effect: Effect { effect_type: EffectType::Fire, level: 2 },
            hp,
            max_hp: 12_000,
        },
    }
}

#[test]
fn a_destroyed_planet_becomes_a_crystal() {
    let mut w = World::new(player());
    w.planets.push(planet(50, 1000));
    w.arrows.push(arrow(100, 1000));
    w.collision_events_system(&vec![CollisionEvent::Started(50, 100)]);
    assert!(w.planets.is_empty());
    assert_eq!(w.inventory.crystals.len(), 1);
    let c = w.inventory.crystals[0];
    assert_eq!(c.color, ColorId::new(10, 20, 30));
    assert_eq!(c.effect, Effect { effect_type: EffectType::Fire, level: 2 });
    assert_eq!(w.shake.trauma(), 1000);
}

#[test]
fn a_planet_that_survives_keeps_its_place() {
    let mut w = World::new(player());
    w.planets.push(planet(50, 1000));
    w.arrows.push(arrow(100, 400));
    w.collision(0, 0);
    assert_eq!(w.planets[0].planet.hp, 600);
    assert!(w.inventory.crystals.is_empty());
    assert!(w.arrows.is_empty());
}

#[test]
fn touching_enemies_hurt_the_player_and_are_consumed() {
    let mut w = World::new(player());
    assert!(w.add_enemy(enemy(1, 3, Point::new(400, 0))));
    assert!(w.add_enemy(enemy(2, 5, Point::new(0, 400))));
    assert!(w.add_enemy(enemy(3, 4, Point::new(0, -599))));
    assert!(w.add_enemy(enemy(4, 4, Point::new(5000, 0))));
    w.handle_collision(12_345);
    assert_eq!(w.player.health.current, 34_000);
    let ids: Vec<u64> = w.enemies.iter().map(|e| e.id).collect();
    assert_eq!(ids, vec![2, 4]);
    assert_eq!(w.enemies_counter.0, 2);
    assert_eq!(w.health_bars, vec![HealthBar { owner: HealthBarOwner(2) }, HealthBar { owner: HealthBarOwner(4) }]);
    assert_eq!(w.last_damage.0, 12_345);
    assert_eq!(w.shake.trauma(), 1000);
    assert_eq!(w.cues, vec![Cue::DamageParticles(Point::new(400, 0)), Cue::DamageParticles(Point::new(0, -599))]);
}

#[test]
fn no_contact_leaves_the_player_alone() {
    let mut w = World::new(player());
    assert!(w.add_enemy(enemy(1, 3, Point::new(600, 0))));
    w.handle_collision(99);
    assert_eq!(w.player.health.current, 36_000);
    assert_eq!(w.enemies.len(), 1);
    assert_eq!(w.last_damage.0, 0);
    assert_eq!(w.shake.trauma(), 0);
}

#[test]
fn ai_steers_every_enemy() {
    let mut w = World::new(player());
    assert!(w.add_enemy(enemy(1, 3, Point::new(1000, 0))));
    assert!(w.add_enemy(enemy(2, 5, Point::new(0, 1000))));
    w.handle_ai();
    assert_eq!(w.enemies[0].velocity, Point::new(-41, 0));
    assert_eq!(w.enemies[1].velocity, Point::new(10, 0));
}

#[test]
fn a_new_player_starts_hurt_by_four_points() {
    let p = PlayerBody::new_player(Point::new(5, 6));
    assert_eq!(p.position, Point::new(5, 6));
    assert_eq!(p.health, PlayerHealth { current: 36_000, per_segment: 10, num_segments: 4 });
    assert_eq!(p.collider, CircleCollider(300));
}

#[test]
fn ids_stay_unique_across_kinds() {
    let mut w = World::new(player());
    assert!(w.add_enemy(enemy(1, 3, Point::new(2000, 0))));
    assert!(w.add_arrow(arrow(100, 500)));
    assert!(!w.add_arrow(arrow(100, 500)));
    assert!(!w.add_arrow(arrow(1, 500)));
    assert!(!w.add_enemy(enemy(100, 3, Point::new(0, 2000))));
    assert!(w.add_planet(planet(50, 1000)));
    assert!(!w.add_planet(planet(1, 1000)));
    assert!(w.id_in_use(50) && w.id_in_use(1) && w.id_in_use(100) && !w.id_in_use(7));
    w.collision_events_system(&vec![CollisionEvent::Started(100, 1), CollisionEvent::Started(1, 100)]);
    assert_eq!(w.enemies[0].hp.current, 3500);
}

#[test]
fn dropped_orbs_lie_near_the_fallen_enemy() {
    let mut w = World::new(player());
    assert!(w.add_enemy(enemy(1, 3, Point::new(2000, -700))));
    assert!(w.add_arrow(arrow(100, 4000)));
    w.handle_enemy_damage(0, 0);
    for o in &w.orbs {
        assert!((o.position.x - 2000).abs() <= 300 && (o.position.y + 700).abs() <= 300);
    }
}
