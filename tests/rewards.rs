use orbit_archer::geometry::{Point, COORD_LIMIT};
use orbit_archer::loot::XPBar;
use orbit_archer::rewards::{iroot5, move_xp_orb, scatter_orbs, spawn_orbs, split_by_weights, xp_orb_collision, XPOrb, ENEMY_REWARD, ORB_COUNT};

#[test]
fn split_is_exact_and_proportional() {
    assert_eq!(split_by_weights(10, &vec![1, 1, 1, 1]), vec![2, 3, 2, 3]);
    assert_eq!(split_by_weights(5000, &vec![1, 2, 3, 4]), vec![500, 1000, 1500, 2000]);
    assert_eq!(split_by_weights(4, &vec![5, 1, 1, 1]), vec![1, 1, 1, 1]);
    assert_eq!(split_by_weights(7, &vec![3]), vec![7]);
}

#[test]
fn spawn_orbs_conserves_the_total() {
    for _ in 0..20 {
        let at = Point::new(100, -100);
        let orbs = spawn_orbs(ENEMY_REWARD, at);
        assert_eq!(orbs.len(), ORB_COUNT);
        assert_eq!(orbs.iter().map(|o| o.value).sum::<u64>(), 5000);
        for o in &orbs {
            assert!(o.value >= 1);
            assert!((o.position.x - at.x).abs() <= 300);
            assert!((o.position.y - at.y).abs() <= 300);
        }
    }
}

#[test]
fn spawn_orbs_with_the_smallest_total() {
    let orbs = spawn_orbs(4, Point::zero());
    assert!(orbs.iter().all(|o| o.value == 1));
}

#[test]
fn orbs_at_the_edge_stay_in_the_world() {
    let edge = Point::new(COORD_LIMIT, -COORD_LIMIT);
    for o in spawn_orbs(ENEMY_REWARD, edge) {
        assert!(o.position.x <= COORD_LIMIT && o.position.y >= -COORD_LIMIT);
    }
}

#[test]
fn scatter_places_each_orb_by_its_offset() {
    let orbs = scatter_orbs(
        10,
        Point::new(COORD_LIMIT - 100, 0),
        &vec![1, 1, 1, 1],
        &vec![Point::new(300, 0), Point::new(-300, 5), Point::new(0, 0), Point::new(1, -1)],
    );
    assert_eq!(orbs[0], XPOrb { value: 2, position: Point::new(COORD_LIMIT, 0) });
    assert_eq!(orbs[1], XPOrb { value: 3, position: Point::new(COORD_LIMIT - 400, 5) });
    assert_eq!(orbs[2].position, Point::new(COORD_LIMIT - 100, 0));
    assert_eq!(orbs[3].position, Point::new(COORD_LIMIT - 99, -1));
}

#[test]
fn touched_orbs_fill_the_bar() {
    let mut orbs = vec![
        XPOrb { value: 100, position: Point::new(0, 0) },
        XPOrb { value: 200, position: Point::new(1000, 0) },
        XPOrb { value: 300, position: Point::new(50, 0) },
        XPOrb { value: 400, position: Point::new(300, 0) },
    ];
    let mut bar = XPBar::new();
    xp_orb_collision(&mut orbs, Point::zero(), 300, &mut bar);
    assert_eq!(bar.current, 400);
    assert_eq!(orbs.len(), 2);
    assert_eq!(orbs[0].value, 200);
    assert_eq!(orbs[1].value, 400);
}

#[test]
fn fifth_root_rounds_down() {
    assert_eq!(iroot5(0), 0);
    assert_eq!(iroot5(31), 1);
    assert_eq!(iroot5(32), 2);
    assert_eq!(iroot5(243), 3);
    assert_eq!(iroot5(1_000_000_000_000), 251);
}

#[test]
fn orbs_are_drawn_to_the_player() {
    let mut orbs = vec![
        XPOrb { value: 1, position: Point::new(1000, 0) },
        XPOrb { value: 2, position: Point::new(0, -100_000) },
        XPOrb { value: 3, position: Point::new(0, 0) },
    ];
    move_xp_orb(&mut orbs, Point::zero(), 16);
    assert_eq!(orbs[0], XPOrb { value: 1, position: Point::new(969, 0) });
    assert_eq!(orbs[1].position, Point::new(0, -99_992));
    assert_eq!(orbs[2].position, Point::new(0, 0));
}
