use orbit_archer::colors::{closest_color, hex_to_rgb, rgb_distance_sq, ColorEntry};
use orbit_archer::loot::ColorId;

fn entry(name: &str, hex: &str) -> ColorEntry {
    ColorEntry { name: name.to_string(), hex: hex.to_string(), good_name: None }
}

#[test]
fn hex_colours_are_read() {
    assert_eq!(hex_to_rgb("#FF8000"), Some(ColorId::new(255, 128, 0)));
    assert_eq!(hex_to_rgb("#ff8000"), Some(ColorId::new(255, 128, 0)));
    assert_eq!(hex_to_rgb("#0a0B0c"), Some(ColorId::new(10, 11, 12)));
}

#[test]
fn malformed_hex_is_refused() {
    assert_eq!(hex_to_rgb("FF8000"), None);
    assert_eq!(hex_to_rgb("#GG0000"), None);
    assert_eq!(hex_to_rgb("#FFF"), None);
    assert_eq!(hex_to_rgb("#FF80000"), None);
    assert_eq!(hex_to_rgb(""), None);
}

#[test]
fn distance_is_squared_per_channel() {
    assert_eq!(rgb_distance_sq(ColorId::new(0, 0, 0), ColorId::new(255, 255, 255)), 195_075);
    assert_eq!(rgb_distance_sq(ColorId::new(1, 2, 3), ColorId::new(1, 2, 3)), 0);
}

#[test]
fn nearest_readable_entry_is_chosen() {
    let list = vec![entry("black", "#000000"), entry("red", "#FF0000"), entry("broken", "#zz0000")];
    assert_eq!(closest_color(ColorId::new(250, 0, 0), &list), Some(1));
    assert_eq!(closest_color(ColorId::new(5, 5, 5), &list), Some(0));
    assert_eq!(closest_color(ColorId::new(5, 5, 5), &vec![]), None);
    assert_eq!(closest_color(ColorId::new(5, 5, 5), &vec![entry("broken", "nope")]), None);
}

#[test]
fn ties_go_to_the_first_entry() {
    let list = vec![entry("a", "#101010"), entry("b", "#101010")];
    assert_eq!(closest_color(ColorId::new(0, 0, 0), &list), Some(0));
}
