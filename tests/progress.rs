use orbit_archer::combat::{CircleCollider, LastDamageTime, PlayerBody, PlayerHealth, World, HP};
use orbit_archer::geometry::Point;
use orbit_archer::progress::{
    health_bar_scale, is_position_safe, spawn_candidate, pick_spawn_position, regenerate_healthbar, spawn_cooldown_ms, spawn_enemies,
    update_health_bar_ui, PlanetData, SpawnTimer,
};

#[test]
fn cooldown_grows_with_the_square_of_the_count() {
    assert_eq!(spawn_cooldown_ms(0), 100);
    assert_eq!(spawn_cooldown_ms(5), 1100);
    assert_eq!(spawn_cooldown_ms(10), 4100);
    assert_eq!(spawn_cooldown_ms(-5), 1100);
}

#[test]
fn timer_fires_once_past_the_cooldown() {
    let mut t = SpawnTimer::new();
    assert!(!t.tick(50, 0));
    assert_eq!(t.elapsed_ms, 50);
    assert!(!t.tick(50, 0));
    assert!(t.tick(1, 0));
    assert_eq!(t.elapsed_ms, 0);
    let mut busy = SpawnTimer { elapsed_ms: u64::MAX - 1 };
    assert!(busy.tick(10, 0));
    assert_eq!(busy.elapsed_ms, 0);
}

#[test]
fn positions_near_planets_are_unsafe() {
    let planets = PlanetData(vec![(Point::new(0, 0), 1000)]);
    assert!(!is_position_safe(Point::new(1200, 0), &planets));
    assert!(is_position_safe(Point::new(1300, 0), &planets));
    assert!(is_position_safe(Point::new(1200, 0), &PlanetData(vec![])));
}

#[test]
fn picked_positions_lie_in_the_ring() {
    let planets = PlanetData(vec![(Point::new(2000, 2000), 500)]);
    for _ in 0..20 {
        if let Some(p) = pick_spawn_position(Point::zero(), &planets) {
            let d = p.x * p.x + p.y * p.y;
            assert!(d >= 1200 * 1200 && d < 5000 * 5000);
            assert!(is_position_safe(p, &planets));
        }
    }
}

#[test]
fn enemies_spawn_when_due() {
    let mut w = World::new(PlayerBody {
        position: Point::zero(),
        velocity: Point::zero(),
        health: PlayerHealth { current: 36_000, per_segment: 10, num_segments: 4 },
        collider: CircleCollider(300),
    });
    let mut timer = SpawnTimer::new();
    let planets = PlanetData(vec![]);
    assert!(!spawn_enemies(&mut w, &mut timer, 10, &planets, 1));
    assert!(w.enemies.is_empty());
    assert_eq!(timer.elapsed_ms, 10);
    if spawn_enemies(&mut w, &mut timer, 1000, &planets, 1) {
        assert_eq!(w.enemies.len(), 1);
        assert_eq!(w.enemies_counter.0, 1);
        let e = w.enemies[0];
        assert!(e.enemy.sides == 3 || e.enemy.sides == 4);
        assert_eq!(e.hp, HP { current: 4000, max: 4000 });
        assert_eq!(w.health_bars.len(), 1);
        assert_eq!(w.health_bars[0].owner.0, 1);
    }
    assert_eq!(timer.elapsed_ms, 0);
}

#[test]
fn health_regenerates_after_the_cooldown() {
    let mut h = PlayerHealth { current: 35_000, per_segment: 10, num_segments: 4 };
    regenerate_healthbar(&mut h, LastDamageTime(0), 2000, 16);
    assert_eq!(h.current, 35_000);
    regenerate_healthbar(&mut h, LastDamageTime(0), 5000, 16);
    assert_eq!(h.current, 35_016);
    let mut near_full = PlayerHealth { current: 39_990, per_segment: 10, num_segments: 4 };
    regenerate_healthbar(&mut near_full, LastDamageTime(0), 5000, 16);
    assert_eq!(near_full.current, 39_990);
}

#[test]
fn bar_scale_is_clamped() {
    assert_eq!(health_bar_scale(&HP { current: 2000, max: 4000 }), 500);
    assert_eq!(health_bar_scale(&HP { current: -5, max: 4000 }), 0);
    assert_eq!(health_bar_scale(&HP { current: 5000, max: 4000 }), 1000);
    assert_eq!(health_bar_scale(&HP { current: 500, max: 0 }), 500);
}

#[test]
fn segments_below_the_health_are_lost() {
    let mut h = PlayerHealth { current: 36_000, per_segment: 10, num_segments: 4 };
    assert_eq!(update_health_bar_ui(&mut h), vec![1000, 1000, 1000, 600]);
    assert_eq!(h.num_segments, 4);
    h.current = 25_500;
    assert_eq!(update_health_bar_ui(&mut h), vec![1000, 1000, 550]);
    assert_eq!(h.num_segments, 3);
    h.current = 40_000;
    assert_eq!(update_health_bar_ui(&mut h), vec![1000, 1000, 1000]);
    h.current = -5_000;
    assert_eq!(update_health_bar_ui(&mut h), Vec::<u32>::new());
    assert_eq!(h.num_segments, 0);
}

#[test]
fn candidates_must_lie_in_the_ring_and_clear_of_planets() {
    let planets = PlanetData(vec![(Point::new(3000, 0), 500)]);
    let player = Point::new(100, 100);
    assert_eq!(spawn_candidate(player, 2000, 0, &planets), Some(Point::new(2100, 100)));
    assert_eq!(spawn_candidate(player, 1000, 0, &planets), None);
    assert_eq!(spawn_candidate(player, 5000, 0, &planets), None);
    assert_eq!(spawn_candidate(player, 2800, 0, &planets), None);
    assert_eq!(spawn_candidate(Point::new(262_000, 0), 1500, 0, &planets), None);
}
