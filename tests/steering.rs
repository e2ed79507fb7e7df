use orbit_archer::geometry::Point;
use orbit_archer::steering::{calculate_intercept_direction, solve_intercept_time, steer, ENEMY_SPEED};

#[test]
fn stationary_target_is_aimed_at_directly() {
    let shooter = Point::new(0, 0);
    let target = Point::new(1000, 0);
    let still = Point::zero();
    assert_eq!(solve_intercept_time(shooter, target, still, 500), Some((1_000_000, 500_000)));
    assert_eq!(calculate_intercept_direction(shooter, target, still, 500), Some(Point::new(500, 0)));
    assert_eq!(calculate_intercept_direction(shooter, target, still, 100), Some(Point::new(100, 0)));
    let diagonal = Point::new(-300, 400);
    assert_eq!(calculate_intercept_direction(shooter, diagonal, still, 500), Some(Point::new(-300, 400)));
}

#[test]
fn target_on_the_shooter_has_no_positive_time() {
    let p = Point::new(50, 50);
    assert_eq!(solve_intercept_time(p, p, Point::zero(), 500), None);
}

#[test]
fn fast_target_fleeing_falls_back_to_pursuit() {
    let shooter = Point::new(0, 0);
    let target = Point::new(1000, 0);
    let fleeing = Point::new(600, 0);
    assert_eq!(calculate_intercept_direction(shooter, target, fleeing, 500), None);
    let v = steer(4, shooter, Point::zero(), target, fleeing);
    assert_eq!(v, steer(3, shooter, Point::zero(), target, fleeing));
    assert_eq!(v, Point::new(50, 0));
}

#[test]
fn crossing_target_is_led() {
    let shooter = Point::new(0, 0);
    let target = Point::new(0, 1000);
    let vel = Point::new(300, 0);
    assert_eq!(solve_intercept_time(shooter, target, vel, 500), Some((800_000, 320_000)));
    assert_eq!(calculate_intercept_direction(shooter, target, vel, 500), Some(Point::new(300, 400)));
}

#[test]
fn equal_speeds_use_the_linear_equation() {
    let shooter = Point::new(0, 0);
    let target = Point::new(1000, 0);
    let approaching = Point::new(-500, 0);
    assert_eq!(solve_intercept_time(shooter, target, approaching, 500), Some((1_000_000, 1_000_000)));
    assert_eq!(calculate_intercept_direction(shooter, target, approaching, 500), Some(Point::new(500, 0)));
    let receding = Point::new(500, 0);
    assert_eq!(solve_intercept_time(shooter, target, receding, 500), None);
}

#[test]
fn slow_target_takes_the_earliest_positive_root() {
    let shooter = Point::new(0, 0);
    let target = Point::new(1000, 0);
    let vel = Point::new(-300, 0);
    // a = 90000 - 250000, b = -600000, c = 1000000: roots 1.25 s and -5 s.
    assert_eq!(solve_intercept_time(shooter, target, vel, 500), Some((400_000, 320_000)));
}

#[test]
fn other_shapes_keep_their_velocity() {
    let v = Point::new(7, -9);
    assert_eq!(steer(5, Point::zero(), v, Point::new(1000, 0), Point::zero()), v);
    assert_eq!(ENEMY_SPEED, 500);
}

#[test]
fn pursuer_eases_toward_the_player() {
    let v = steer(3, Point::new(1000, 0), Point::zero(), Point::zero(), Point::new(100, 100));
    assert_eq!(v, Point::new(-50, 0));
}

#[test]
fn chasing_a_close_player_keeps_the_speed() {
    let v = steer(3, Point::new(0, 0), Point::new(353, 353), Point::new(1, 1), Point::zero());
    assert_eq!(v, Point::new(353, 353));
    assert!(v.x * v.x + v.y * v.y <= ENEMY_SPEED * ENEMY_SPEED);
    let w = steer(4, Point::new(0, 0), Point::new(0, 500), Point::new(1, 0), Point::new(3, 0));
    assert!(w.x * w.x + w.y * w.y <= ENEMY_SPEED * ENEMY_SPEED);
}
