//! Screen shake: one trauma level that game events set and time decays.
//!
//! Trauma is held in thousandths: `TRAUMA_FULL` is the strongest shake.

use vstd::prelude::*;
use crate::geometry::{Point, floor_sqrt, isqrt};
use crate::chance::random_in;

verus! {

/// Full trauma, in thousandths.
pub const TRAUMA_FULL: u32 = 1000;

/// Trauma lost per millisecond (six full units per second).
pub const TRAUMA_FALLOFF: u64 = 6;

/// Trauma an arrow hit asks for.
pub const HIT_TRAUMA: u32 = 1000;

/// Trauma an enemy touching the player asks for.
pub const CONTACT_TRAUMA: u32 = 2000;

/// Trauma an enemy's death asks for.
pub const DEATH_TRAUMA: u32 = 4000;

/// Largest shake of the camera at full trauma, in tenths of a pixel.
pub const SHAKE_RANGE: i64 = 100;

/// The trauma level, in thousandths, kept within `[0, TRAUMA_FULL]`.
pub struct ScreenShake {
    trauma: u32,
}

/// `level` clamped to full trauma.
pub open spec fn clamped(level: int) -> int {
    if level > TRAUMA_FULL {
        TRAUMA_FULL as int
    } else {
        level
    }
}

/// Trauma after `elapsed_ms` milliseconds of decay, never below zero.
pub open spec fn decayed(trauma: int, elapsed_ms: int) -> int {
    let lost = elapsed_ms * TRAUMA_FALLOFF;
    if lost >= trauma {
        0
    } else {
        trauma - lost
    }
}

/// Shake intensity in thousandths: trauma raised to the power 2.5, that is
/// `t^2 * sqrt(t)` on the unit scale, rounded down.
pub open spec fn intensity(trauma: int) -> int {
    trauma * trauma * floor_sqrt(trauma * TRAUMA_FULL) / 1_000_000
}

/// Camera displacement along one axis for a draw `r` in `[-1000, 1000]`
/// (thousandths of the unit interval), in tenths of a pixel.
pub open spec fn axis_offset(trauma: int, r: int) -> int {
    let m = if r >= 0 { r } else { -r };
    let q = m * SHAKE_RANGE * intensity(trauma) / 1_000_000;
    if r >= 0 {
        q
    } else {
        -q
    }
}

impl Default for ScreenShake {
    fn default() -> (r: ScreenShake)
        ensures
            r.level() == 0,
    {
        ScreenShake { trauma: 0 }
    }
}

impl ScreenShake {
    #[verifier::type_invariant]
    spec fn within_range(self) -> bool {
        self.trauma <= TRAUMA_FULL
    }

    /// The current trauma, in thousandths.
    /// Trauma stays within `[0, TRAUMA_FULL]` whatever sequence of sets and
    /// decays produced it: every method below keeps it there.
    pub closed spec fn level(self) -> int {
        self.trauma as int
    }

    /// No shake.
    pub fn new() -> (r: ScreenShake)
        ensures
            r.level() == 0,
    {
        ScreenShake { trauma: 0 }
    }

    pub fn trauma(&self) -> (r: u32)
        ensures
            r == self.level(),
            r <= TRAUMA_FULL,
    {
        proof {
            use_type_invariant(self);
        }
        self.trauma
    }

    /// Overwrites the trauma with `level`, clamped to full trauma: the last
    /// event of a tick wins.
    pub fn set(&mut self, level: u32)
        ensures
            final(self).level() == clamped(level as int),
            0 <= final(self).level() <= TRAUMA_FULL,
    {
        if level > TRAUMA_FULL {
            self.trauma = TRAUMA_FULL;
        } else {
            self.trauma = level;
        }
    }

    /// Lets `elapsed_ms` milliseconds of decay pass.
    pub fn decay(&mut self, elapsed_ms: u64)
        ensures
            final(self).level() == decayed(old(self).level(), elapsed_ms as int),
            0 <= final(self).level() <= TRAUMA_FULL,
    {
        proof {
            use_type_invariant(&*self);
        }
        let t = self.trauma as u64;
        if elapsed_ms >= t || elapsed_ms * TRAUMA_FALLOFF >= t {
            self.trauma = 0;
        } else {
            self.trauma = (t - elapsed_ms * TRAUMA_FALLOFF) as u32;
        }
    }

    /// Camera displacement along one axis for a draw `r` in `[-1000, 1000]`.
    pub fn offset_for(&self, r: i64) -> (o: i64)
        requires
            -1000 <= r <= 1000,
        ensures
            o == axis_offset(self.level(), r as int),
            -SHAKE_RANGE <= o <= SHAKE_RANGE,
    {
        proof {
            use_type_invariant(self);
        }
        let t = self.trauma as u64;
        assert(t * 1000 <= 1_000_000 && t * t <= 1_000_000) by (nonlinear_arith)
            requires
                t <= 1000,
        ;
        let wide = isqrt((t * 1000) as u128);
        assert(wide <= 1000) by (nonlinear_arith)
            requires
                wide * wide <= t * 1000,
                t * 1000 <= 1_000_000,
        ;
        let root = wide as u64;
        assert(t * t * root <= 1_000_000_000) by (nonlinear_arith)
            requires
                t * t <= 1_000_000,
                root <= 1000,
        ;
        let inten = t * t * root / 1_000_000;
        assert(inten <= 1000) by (nonlinear_arith)
            requires
                inten == t * t * root / 1_000_000,
                t * t * root <= 1_000_000_000,
        ;
        let m: u64 = if r >= 0 { r as u64 } else { (-r) as u64 };
        assert(m * 100 * inten <= 100_000_000) by (nonlinear_arith)
            requires
                m <= 1000,
                inten <= 1000,
        ;
        let q = m * 100 * inten / 1_000_000;
        assert(q <= 100) by (nonlinear_arith)
            requires
                q == m * 100 * inten / 1_000_000,
                m * 100 * inten <= 100_000_000,
        ;
        if r >= 0 {
            q as i64
        } else {
            -(q as i64)
        }
    }

    /// Decays the trauma by `elapsed_ms` and returns the camera displacement
    /// for the draws `rx` and `ry` in `[-1000, 1000]`; none once the trauma
    /// has died out.
    pub fn shake_with(&mut self, elapsed_ms: u64, rx: i64, ry: i64) -> (o: Point)
        requires
            -1000 <= rx <= 1000,
            -1000 <= ry <= 1000,
        ensures
            final(self).level() == decayed(old(self).level(), elapsed_ms as int),
            o.x == axis_offset(final(self).level(), rx as int),
            o.y == axis_offset(final(self).level(), ry as int),
    {
        self.decay(elapsed_ms);
        Point { x: self.offset_for(rx), y: self.offset_for(ry) }
    }

    /// Decays the trauma by `elapsed_ms` and returns a random camera
    /// displacement, at most `SHAKE_RANGE` on each axis at full trauma.
    pub fn apply_screen_shake(&mut self, elapsed_ms: u64) -> (o: Point)
        ensures
            final(self).level() == decayed(old(self).level(), elapsed_ms as int),
            exists|rx: int, ry: int|
                -1000 <= rx <= 1000 && -1000 <= ry <= 1000
                && o.x == axis_offset(final(self).level(), rx)
                && o.y == axis_offset(final(self).level(), ry),
    {
        let rx = random_in(-1000, 1000);
        let ry = random_in(-1000, 1000);
        self.shake_with(elapsed_ms, rx, ry)
    }
}

} // verus!
