use orbit_archer::geometry::Point;
use orbit_archer::shake::{ScreenShake, CONTACT_TRAUMA, DEATH_TRAUMA, HIT_TRAUMA, TRAUMA_FULL};

#[test]
fn set_overwrites_and_clamps() {
    let mut s = ScreenShake::new();
    assert_eq!(s.trauma(), 0);
    s.set(DEATH_TRAUMA);
    assert_eq!(s.trauma(), TRAUMA_FULL);
    s.set(300);
    assert_eq!(s.trauma(), 300);
    s.set(CONTACT_TRAUMA);
    assert_eq!(s.trauma(), 1000);
    s.set(HIT_TRAUMA);
    assert_eq!(s.trauma(), 1000);
}

#[test]
fn decay_loses_six_units_per_second() {
    let mut s = ScreenShake::new();
    s.set(1000);
    s.decay(100);
    assert_eq!(s.trauma(), 400);
    s.decay(66);
    assert_eq!(s.trauma(), 4);
    s.decay(1);
    assert_eq!(s.trauma(), 0);
    s.decay(u64::MAX);
    assert_eq!(s.trauma(), 0);
}

#[test]
fn trauma_stays_in_range_over_any_sequence() {
    let mut s = ScreenShake::new();
    let steps: [(bool, u64); 8] = [(true, 4000), (false, 16), (true, 2000), (true, 7), (false, 1000), (true, 999_999), (false, 0), (true, 1000)];
    for (is_set, v) in steps {
        if is_set {
            s.set(v as u32);
        } else {
            s.decay(v);
        }
        assert!(s.trauma() <= TRAUMA_FULL);
    }
}

#[test]
fn offset_follows_trauma_to_the_two_and_a_half() {
    let mut s = ScreenShake::new();
    s.set(1000);
    assert_eq!(s.offset_for(1000), 100);
    assert_eq!(s.offset_for(-1000), -100);
    assert_eq!(s.offset_for(500), 50);
    s.set(500);
    assert_eq!(s.offset_for(1000), 17);
    s.set(0);
    assert_eq!(s.offset_for(1000), 0);
}

#[test]
fn shake_with_decays_first() {
    let mut s = ScreenShake::new();
    s.set(1000);
    let o = s.shake_with(0, 1000, -1000);
    assert_eq!(o, Point::new(100, -100));
    let o = s.shake_with(1000, 1000, 1000);
    assert_eq!(s.trauma(), 0);
    assert_eq!(o, Point::new(0, 0));
}

#[test]
fn random_shake_stays_within_range() {
    let mut s = ScreenShake::new();
    for _ in 0..50 {
        s.set(1000);
        let o = s.apply_screen_shake(0);
        assert!(o.x >= -100 && o.x <= 100);
        assert!(o.y >= -100 && o.y <= 100);
    }
    let mut quiet = ScreenShake::new();
    assert_eq!(quiet.apply_screen_shake(16), Point::new(0, 0));
}

#[test]
fn default_shake_is_still() {
    assert_eq!(ScreenShake::default().trauma(), 0);
}
