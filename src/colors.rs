//! Naming a crystal's colour: the nearest entry of a table of named colours.

use vstd::prelude::*;
use vstd::string::StrSliceExecFns;
use crate::loot::ColorId;

verus! {

/// A row of the colour-name table.
#[derive(Debug)]
pub struct ColorEntry {
    pub name: String,
    /// `#rrggbb`.
    pub hex: String,
    pub good_name: Option<String>,
}

/// The value of a hexadecimal digit.
pub open spec fn hex_digit(c: char) -> Option<int> {
    if '0' <= c && c <= '9' {
        Some(c as int - '0' as int)
    } else if 'a' <= c && c <= 'f' {
        Some(c as int - 'a' as int + 10)
    } else if 'A' <= c && c <= 'F' {
        Some(c as int - 'A' as int + 10)
    } else {
        None
    }
}

/// The byte written by the two digits at `i` and `i + 1`.
pub open spec fn hex_byte(s: Seq<char>, i: int) -> Option<int> {
    match (hex_digit(s[i]), hex_digit(s[i + 1])) {
        (Some(h), Some(l)) => Some(16 * h + l),
        _ => None,
    }
}

/// The colour written `#rrggbb`, if `s` is so written.
pub open spec fn parse_hex_color(s: Seq<char>) -> Option<ColorId> {
    if s.len() == 7 && s[0] == '#' {
        match (hex_byte(s, 1), hex_byte(s, 3), hex_byte(s, 5)) {
            (Some(r), Some(g), Some(b)) => Some(ColorId { r: r as u8, g: g as u8, b: b as u8 }),
            _ => None,
        }
    } else {
        None
    }
}

fn digit_value(c: char) -> (r: Option<u8>)
    ensures
        r matches Some(v) ==> hex_digit(c) == Some(v as int) && v < 16,
        r is None ==> hex_digit(c) is None,
{
    if '0' <= c && c <= '9' {
        Some(((c as u32) - ('0' as u32)) as u8)
    } else if 'a' <= c && c <= 'f' {
        Some(((c as u32) - ('a' as u32) + 10) as u8)
    } else if 'A' <= c && c <= 'F' {
        Some(((c as u32) - ('A' as u32) + 10) as u8)
    } else {
        None
    }
}

fn byte_at(s: &str, i: usize) -> (r: Option<u8>)
    requires
        i < 6,
        i + 1 < s@.len(),
    ensures
        r matches Some(v) ==> hex_byte(s@, i as int) == Some(v as int),
        r is None ==> hex_byte(s@, i as int) is None,
{
    match (digit_value(s.get_char(i)), digit_value(s.get_char(i + 1))) {
        (Some(h), Some(l)) => Some(16 * h + l),
        _ => None,
    }
}

/// Reads a colour written `#rrggbb`.
pub fn hex_to_rgb(hex: &str) -> (r: Option<ColorId>)
    ensures
        r == parse_hex_color(hex@),
{
    if hex.unicode_len() != 7 {
        return None;
    }
    if hex.get_char(0) != '#' {
        return None;
    }
    match (byte_at(hex, 1), byte_at(hex, 3), byte_at(hex, 5)) {
        (Some(r), Some(g), Some(b)) => Some(ColorId::new(r, g, b)),
        _ => None,
    }
}

/// Squared distance between two colours, channel by channel.
pub open spec fn rgb_distance(a: ColorId, b: ColorId) -> int {
    (a.r - b.r) * (a.r - b.r) + (a.g - b.g) * (a.g - b.g) + (a.b - b.b) * (a.b - b.b)
}

pub fn rgb_distance_sq(a: ColorId, b: ColorId) -> (d: u32)
    ensures
        d == rgb_distance(a, b),
{
    let dr = (a.r as i32) - (b.r as i32);
    let dg = (a.g as i32) - (b.g as i32);
    let db = (a.b as i32) - (b.b as i32);
    assert(0 <= dr * dr <= 65025 && 0 <= dg * dg <= 65025 && 0 <= db * db <= 65025) by (nonlinear_arith)
        requires
            -255 <= dr <= 255,
            -255 <= dg <= 255,
            -255 <= db <= 255,
    ;
    (dr * dr + dg * dg + db * db) as u32
}

/// Whether entry `i` of `list` is a readable colour nearest to `c`, and the
/// first such.
pub open spec fn is_closest(c: ColorId, list: Seq<ColorEntry>, i: int) -> bool {
    &&& 0 <= i < list.len()
    &&& parse_hex_color(list[i].hex@) is Some
    &&& forall|j: int| 0 <= j < list.len() && (#[trigger] parse_hex_color(list[j].hex@)) is Some ==> {
        let dj = rgb_distance(c, parse_hex_color(list[j].hex@)->Some_0);
        let di = rgb_distance(c, parse_hex_color(list[i].hex@)->Some_0);
        &&& di <= dj
        &&& j < i ==> di < dj
    }
}

/// Index of the first entry nearest to `input`, among those whose colour
/// can be read; `None` when none can.
pub fn closest_color(input: ColorId, list: &Vec<ColorEntry>) -> (r: Option<usize>)
    ensures
        r matches Some(i) ==> is_closest(input, list@, i as int),
        r is None ==> forall|j: int| 0 <= j < list@.len() ==> (#[trigger] parse_hex_color(list@[j].hex@)) is None,
{
    let mut best: Option<(usize, u32)> = None;
    let mut i: usize = 0;
    while i < list.len()
        invariant
            0 <= i <= list@.len(),
            best matches Some(b) ==> b.0 < i && parse_hex_color(list@[b.0 as int].hex@) is Some
                && b.1 == rgb_distance(input, parse_hex_color(list@[b.0 as int].hex@)->Some_0)
                && forall|j: int| 0 <= j < i && (#[trigger] parse_hex_color(list@[j].hex@)) is Some ==> {
                    &&& b.1 <= rgb_distance(input, parse_hex_color(list@[j].hex@)->Some_0)
                    &&& j < b.0 ==> b.1 < rgb_distance(input, parse_hex_color(list@[j].hex@)->Some_0)
                },
            best is None ==> forall|j: int| 0 <= j < i ==> (#[trigger] parse_hex_color(list@[j].hex@)) is None,
        decreases list@.len() - i,
    {
        match hex_to_rgb(list[i].hex.as_str()) {
            Some(col) => {
                let d = rgb_distance_sq(input, col);
                match best {
                    Some((_, bd)) => {
                        if d < bd {
                            best = Some((i, d));
                        }
                    },
                    None => {
                        best = Some((i, d));
                    },
                }
            },
            None => {},
        }
        i = i + 1;
    }
    match best {
        Some((b, _)) => Some(b),
        None => None,
    }
}

} // verus!
