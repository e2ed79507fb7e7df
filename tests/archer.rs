use orbit_archer::archer::{charging_trauma, handle_keys, BowState, MAX_ARROW_SPEED};
use orbit_archer::geometry::Point;

#[test]
fn charge_grows_until_the_cap() {
    let mut bow = BowState::new();
    bow.hold(500);
    assert_eq!(bow.charge_ms, 0);
    bow.press();
    bow.hold(500);
    bow.hold(500);
    assert_eq!(bow.charge_ms, 1000);
    bow.hold(1100);
    assert_eq!(bow.charge_ms, 2100);
    bow.hold(100);
    assert_eq!(bow.charge_ms, 2100);
}

#[test]
fn release_fires_along_the_aim() {
    let mut bow = BowState::new();
    bow.press();
    bow.hold(1000);
    let shot = bow.release(Some(Point::new(100, 0))).unwrap();
    assert_eq!(shot.arrow.damage, 1000);
    assert_eq!(shot.velocity, Point::new(3000, 0));
    assert_eq!(shot.recoil, Point::new(-200, 0));
    assert!(!bow.charging);
    assert_eq!(bow.charge_ms, 0);
}

#[test]
fn arrow_speed_is_clamped_per_axis() {
    let mut bow = BowState::new();
    bow.press();
    bow.hold(2000);
    let shot = bow.release(Some(Point::new(100, 100))).unwrap();
    assert_eq!(shot.velocity, Point::new(4242, 4242));
    bow.press();
    bow.hold(1999);
    bow.hold(1000);
    let fast = bow.release(Some(Point::new(0, -50))).unwrap();
    assert_eq!(fast.velocity, Point::new(0, -MAX_ARROW_SPEED));
}

#[test]
fn release_without_a_draw_or_aim_fires_nothing() {
    let mut bow = BowState::new();
    assert_eq!(bow.release(Some(Point::new(1, 0))), None);
    bow.press();
    bow.hold(700);
    assert_eq!(bow.release(None), None);
    assert_eq!(bow.charge_ms, 0);
}

#[test]
fn drawing_shakes_the_screen() {
    assert_eq!(charging_trauma(1000), 200);
    assert_eq!(charging_trauma(2000), 400);
    assert_eq!(charging_trauma(u64::MAX), u32::MAX);
}

#[test]
fn keys_push_the_player() {
    assert_eq!(handle_keys(Point::zero(), false, true, true, false, 16), Point::new(32, 32));
    assert_eq!(handle_keys(Point::new(5, 5), true, true, false, true, 16), Point::new(5, -27));
}
