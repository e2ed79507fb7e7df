use orbit_archer::geometry::{isqrt, scale_to, smooth_toward, within_reach, Point, COORD_LIMIT};

#[test]
fn isqrt_rounds_down() {
    assert_eq!(isqrt(0), 0);
    assert_eq!(isqrt(1), 1);
    assert_eq!(isqrt(15), 3);
    assert_eq!(isqrt(16), 4);
    assert_eq!(isqrt(17), 4);
    assert_eq!(isqrt(u128::MAX), 18446744073709551615);
}

#[test]
fn scale_to_resizes_a_vector() {
    assert_eq!(scale_to(3, 4, 500), Point::new(300, 400));
    assert_eq!(scale_to(-3, 4, 10), Point::new(-6, 8));
    assert_eq!(scale_to(1000, 0, 500), Point::new(500, 0));
    assert_eq!(scale_to(1, 1, 500), Point::new(353, 353));
    assert_eq!(scale_to(0, -2, 500), Point::new(0, -500));
}

#[test]
fn scale_to_keeps_the_zero_vector() {
    assert_eq!(scale_to(0, 0, 500), Point::zero());
}

#[test]
fn smoothing_moves_a_tenth_of_the_way() {
    assert_eq!(smooth_toward(Point::new(0, 0), Point::new(500, -500)), Point::new(50, -50));
    assert_eq!(smooth_toward(Point::new(100, 100), Point::new(0, 0)), Point::new(90, 90));
    assert_eq!(smooth_toward(Point::new(0, 0), Point::new(5, -5)), Point::new(0, 0));
}

#[test]
fn reach_is_strict() {
    let a = Point::new(0, 0);
    let b = Point::new(3, 4);
    assert!(!within_reach(a, b, 5));
    assert!(within_reach(a, b, 6));
    assert!(within_reach(a, a, 1));
    assert!(!within_reach(a, a, 0));
    let far = Point::new(COORD_LIMIT, COORD_LIMIT);
    let near = Point::new(-COORD_LIMIT, -COORD_LIMIT);
    assert!(!within_reach(far, near, 4 * COORD_LIMIT / 2));
    assert!(within_reach(far, near, 4 * COORD_LIMIT));
}

#[test]
fn scaled_vectors_never_exceed_the_speed() {
    for (dx, dy) in [(1i128, 1i128), (1, 2), (2, 3), (7, -5), (-1, 1), (123_456, 654_321), (1 << 45, 3)] {
        let v = scale_to(dx, dy, 500);
        assert!(v.x * v.x + v.y * v.y <= 500 * 500, "{dx} {dy} -> {v:?}");
    }
}
