//! The player's bow and movement.
//!
//! Speeds are held in tenths of a pixel per second, times in milliseconds.

use vstd::prelude::*;
use crate::geometry::{Point, COORD_LIMIT, scaled, scale_to};
use crate::combat::Arrow;

verus! {

/// Arrow speed for each second of draw (three hundred pixels per second).
pub const ARROW_SPEED: i64 = 3000;

/// Largest arrow speed on each axis (six hundred pixels per second).
pub const MAX_ARROW_SPEED: i64 = 6000;

/// Recoil on the player for each second of draw (twenty pixels per second).
pub const KNOCKBACK: i64 = 200;

/// The bow stops gathering charge once drawn this long.
pub const MAX_CHARGE_MS: u64 = 2000;

/// Speed the player gains per millisecond a movement key is held (two
/// hundred pixels per second, per second).
pub const PLAYER_ACCEL: i64 = 2;

/// What a released arrow carries and what it does to the player.
#[derive(Clone, Copy, Debug, PartialEq, Eq, Structural)]
pub struct Shot {
    pub arrow: Arrow,
    pub velocity: Point,
    /// Added to the player's velocity.
    pub recoil: Point,
}

pub struct BowState {
    pub charging: bool,
    pub charge_ms: u64,
}

pub open spec fn clamp_axis(v: int, limit: int) -> int {
    if v > limit {
        limit
    } else if v < -limit {
        -limit
    } else {
        v
    }
}

/// Speed for a draw of `charge_ms`, at `per_second` per second of draw,
/// never beyond `COORD_LIMIT`.
pub open spec fn draw_speed(charge_ms: int, per_second: int) -> int {
    let s = per_second * charge_ms / 1000;
    if s > COORD_LIMIT {
        COORD_LIMIT as int
    } else {
        s
    }
}

/// The shot released toward `aim` (relative to the player) after a draw of
/// `charge_ms`: damage equal to the draw, a velocity along `aim` clamped on
/// each axis, and a recoil against it.
pub open spec fn shot_for(aim: Point, charge_ms: int) -> Shot {
    let v = scaled(aim.x as int, aim.y as int, draw_speed(charge_ms, ARROW_SPEED as int));
    let k = scaled(aim.x as int, aim.y as int, draw_speed(charge_ms, KNOCKBACK as int));
    Shot {
        arrow: Arrow { damage: charge_ms as u64 },
        velocity: Point {
            x: clamp_axis(v.0, MAX_ARROW_SPEED as int) as i64,
            y: clamp_axis(v.1, MAX_ARROW_SPEED as int) as i64,
        },
        recoil: Point { x: -k.0 as i64, y: -k.1 as i64 },
    }
}

fn draw_speed_exec(charge_ms: u64, per_second: i64) -> (r: i64)
    requires
        0 <= per_second <= 3000,
    ensures
        r == draw_speed(charge_ms as int, per_second as int),
        0 <= r <= COORD_LIMIT,
{
    assert((per_second as u128) * (charge_ms as u128) <= 3000 * 0xFFFF_FFFF_FFFF_FFFF) by (nonlinear_arith)
        requires
            0 <= per_second <= 3000,
            charge_ms <= 0xFFFF_FFFF_FFFF_FFFF,
    ;
    let s = (per_second as u128) * (charge_ms as u128) / 1000;
    if s > COORD_LIMIT as u128 {
        COORD_LIMIT
    } else {
        s as i64
    }
}

fn clamp_axis_exec(v: i64, limit: i64) -> (r: i64)
    requires
        limit >= 0,
    ensures
        r == clamp_axis(v as int, limit as int),
{
    if v > limit {
        limit
    } else if v < -limit {
        -limit
    } else {
        v
    }
}

impl BowState {
    pub fn new() -> (b: BowState)
        ensures
            !b.charging && b.charge_ms == 0,
    {
        BowState { charging: false, charge_ms: 0 }
    }

    /// Starts drawing the bow.
    pub fn press(&mut self)
        ensures
            final(self).charging && final(self).charge_ms == 0,
    {
        self.charging = true;
        self.charge_ms = 0;
    }

    /// Keeps drawing for `dt_ms`: the charge grows while under
    /// `MAX_CHARGE_MS` (saturating at `u64::MAX`).
    pub fn hold(&mut self, dt_ms: u64)
        ensures
            final(self).charging == old(self).charging,
            final(self).charge_ms == if old(self).charging && old(self).charge_ms < MAX_CHARGE_MS {
                if old(self).charge_ms + dt_ms > u64::MAX { u64::MAX as int } else { old(self).charge_ms + dt_ms }
            } else {
                old(self).charge_ms as int
            },
    {
        if self.charging && self.charge_ms < MAX_CHARGE_MS {
            self.charge_ms = if dt_ms > u64::MAX - self.charge_ms { u64::MAX } else { self.charge_ms + dt_ms };
        }
    }

    /// Releases the bow toward `aim`, relative to the player: while drawing,
    /// a shot whose damage is the charge; none without an aim or a draw. The
    /// charge is spent either way.
    pub fn release(&mut self, aim: Option<Point>) -> (shot: Option<Shot>)
        requires
            aim matches Some(a) ==> -2 * COORD_LIMIT <= a.x <= 2 * COORD_LIMIT && -2 * COORD_LIMIT <= a.y <= 2 * COORD_LIMIT,
        ensures
            !final(self).charging,
            final(self).charge_ms == 0,
            shot == if old(self).charging && aim is Some {
                Some(shot_for(aim->Some_0, old(self).charge_ms as int))
            } else {
                None::<Shot>
            },
    {
        let was = self.charging;
        let charge = self.charge_ms;
        self.charging = false;
        self.charge_ms = 0;
        if !was {
            return None;
        }
        match aim {
            Some(a) => {
                let v = scale_to(a.x as i128, a.y as i128, draw_speed_exec(charge, ARROW_SPEED));
                let k = scale_to(a.x as i128, a.y as i128, draw_speed_exec(charge, KNOCKBACK));
                Some(Shot {
                    arrow: Arrow { damage: charge },
                    velocity: Point {
                        x: clamp_axis_exec(v.x, MAX_ARROW_SPEED),
                        y: clamp_axis_exec(v.y, MAX_ARROW_SPEED),
                    },
                    recoil: Point { x: -k.x, y: -k.y },
                })
            },
            None => None,
        }
    }
}

/// Screen trauma, in thousandths, while drawing: a fifth of the draw in
/// seconds (saturating).
pub fn charging_trauma(charge_ms: u64) -> (t: u32)
    ensures
        t == if charge_ms / 5 > u32::MAX { u32::MAX as int } else { (charge_ms / 5) as int },
{
    let t = charge_ms / 5;
    if t > u32::MAX as u64 {
        u32::MAX
    } else {
        t as u32
    }
}

/// One axis of the velocity after `dt_ms` with keys `plus` and `minus`.
pub open spec fn pushed(v: int, plus: bool, minus: bool, dt_ms: int) -> int {
    let step = PLAYER_ACCEL * dt_ms;
    let delta = if plus && !minus {
        step
    } else if minus && !plus {
        -step
    } else {
        0
    };
    clamp_axis(v + delta, COORD_LIMIT as int)
}

fn push_axis(v: i64, plus: bool, minus: bool, dt_ms: u32) -> (r: i64)
    requires
        -COORD_LIMIT <= v <= COORD_LIMIT,
    ensures
        r == pushed(v as int, plus, minus, dt_ms as int),
        -COORD_LIMIT <= r <= COORD_LIMIT,
{
    let step = PLAYER_ACCEL * (dt_ms as i64);
    let w = if plus && !minus {
        v + step
    } else if minus && !plus {
        v - step
    } else {
        v
    };
    clamp_axis_exec(w, COORD_LIMIT)
}

/// The player's velocity after holding the movement keys for `dt_ms`: each
/// held key pushes along its axis; the velocity stays within `COORD_LIMIT`.
pub fn handle_keys(v: Point, left: bool, right: bool, up: bool, down: bool, dt_ms: u32) -> (r: Point)
    requires
        v.in_bounds(),
    ensures
        r.x == pushed(v.x as int, right, left, dt_ms as int),
        r.y == pushed(v.y as int, up, down, dt_ms as int),
        r.in_bounds(),
{
    Point { x: push_axis(v.x, right, left, dt_ms), y: push_axis(v.y, up, down, dt_ms) }
}

} // verus!
