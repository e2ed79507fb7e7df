//! Crystals, the inventory that holds them, and the experience bar that
//! selling them fills.
//!
//! Phase, resonance and alignment are held in thousandths of the unit
//! interval; experience in thousandths of a point.

use vstd::prelude::*;
use crate::chance::{random_flag, random_in};

verus! {

/// One whole unit of phase, resonance or alignment.
pub const UNIT: u32 = 1000;

/// Experience, in thousandths of a point, that each level of a sold crystal
/// is worth (ten points).
pub const XP_PER_LEVEL: u64 = 10_000;

/// Experience, in thousandths, needed to leave level zero (fifty points);
/// each level needs twice the one before.
pub const XP_FIRST_LEVEL: u64 = 50_000;

#[derive(Clone, Copy, Debug, PartialEq, Eq, Structural, Hash, Default)]
pub enum EffectType {
    #[default]
    Poison,
    Speed,
    Fire,
}

#[derive(Clone, Copy, Debug, PartialEq, Eq, Structural, Hash, Default)]
pub struct Effect {
    pub effect_type: EffectType,
    pub level: u32,
}

#[derive(Clone, Copy, Debug, PartialEq, Eq, Structural, Hash, Default)]
pub struct ColorId {
    pub r: u8,
    pub g: u8,
    pub b: u8,
}

impl ColorId {
    pub fn new(r: u8, g: u8, b: u8) -> (c: ColorId)
        ensures
            c.r == r && c.g == g && c.b == b,
    {
        ColorId { r, g, b }
    }
}

#[derive(Clone, Copy, Debug, PartialEq, Eq, Structural, Default)]
pub struct Crystal {
    pub color: ColorId,
    pub effect: Effect,
    /// In thousandths, at most `UNIT`.
    pub phase: u32,
    /// In thousandths, at most `UNIT`.
    pub resonance: u32,
}

impl Crystal {
    pub open spec fn wf(self) -> bool {
        self.phase <= UNIT && self.resonance <= UNIT
    }
}

/// Why an inventory operation was refused; the inventory is then unchanged.
#[derive(Clone, Copy, Debug, PartialEq, Eq, Structural)]
pub enum InventoryError {
    /// No crystal stands at this index.
    IndexOutOfBounds(usize),
    /// A crystal cannot be combined with itself.
    SameIndex(usize),
}

pub open spec fn abs_diff(a: int, b: int) -> int {
    if a >= b {
        a - b
    } else {
        b - a
    }
}

pub open spec fn cube(x: int) -> int {
    x * x * x
}

/// How far apart two crystals are, in thousandths:
/// `(|phase_a - phase_b|^3 + |resonance_a - resonance_b|^3) / 2`, rounded down.
pub open spec fn alignment(a: Crystal, b: Crystal) -> int {
    (cube(abs_diff(a.phase as int, b.phase as int)) + cube(abs_diff(a.resonance as int, b.resonance as int)))
        / 2_000_000
}

/// Level of a combined crystal: the mean level times `(1 - alignment)` times
/// two, rounded half up, and capped at `u32::MAX`.
pub open spec fn combined_level(la: int, lb: int, align: int) -> int {
    let l = ((la + lb) * (UNIT - align) + 500) / 1000;
    if l > u32::MAX {
        u32::MAX as int
    } else {
        l
    }
}

pub open spec fn clamp_unit(x: int) -> int {
    if x < 0 {
        0
    } else if x > UNIT {
        UNIT as int
    } else {
        x
    }
}

/// Halving rounded toward zero.
pub open spec fn half(x: int) -> int {
    if x >= 0 {
        x / 2
    } else {
        -((-x) / 2)
    }
}

/// The value at `draw` thousandths of the way through the range centred on
/// `avg` with half-width `range * alignment`, clamped to `[0, UNIT]`.
pub open spec fn drawn_around(avg: int, align: int, range: int, draw: int) -> int {
    let spread = range * align / 1000;
    let lo = clamp_unit(avg - spread);
    let hi = clamp_unit(avg + spread);
    lo + (hi - lo) * draw / 1000
}

/// One channel of a combined colour: `(x + y) % 255 / 2`.
pub open spec fn mixed_channel(x: u8, y: u8) -> int {
    (x + y) % 255 / 2
}

/// The crystal that `a` and `b` combine into, for the given draws.
pub open spec fn combined(a: Crystal, b: Crystal, pick_a: bool, phase_draw: int, resonance_draw: int) -> Crystal {
    let align = alignment(a, b);
    Crystal {
        color: ColorId {
            r: mixed_channel(a.color.r, b.color.r) as u8,
            g: mixed_channel(a.color.g, b.color.g) as u8,
            b: mixed_channel(a.color.b, b.color.b) as u8,
        },
        effect: Effect {
            effect_type: if pick_a { a.effect.effect_type } else { b.effect.effect_type },
            level: combined_level(a.effect.level as int, b.effect.level as int, align) as u32,
        },
        phase: drawn_around(half(a.phase - b.phase), align, 500, phase_draw) as u32,
        resonance: drawn_around(half(a.resonance - b.resonance), align, 500, resonance_draw) as u32,
    }
}

/// The crystals after combining those at `a` and `b` into `c`: `c` takes the
/// lower index and the crystal at the higher one leaves.
pub open spec fn after_combine(s: Seq<Crystal>, a: int, b: int, c: Crystal) -> Seq<Crystal> {
    if a > b {
        s.remove(a).update(b, c)
    } else {
        s.remove(b).update(a, c)
    }
}

fn cube_u64(x: u64) -> (r: u64)
    requires
        x <= UNIT,
    ensures
        r == cube(x as int),
        r <= 1_000_000_000,
{
    assert(x * x <= 1_000_000 && x * x * x <= 1_000_000_000) by (nonlinear_arith)
        requires
            x <= 1000,
    ;
    x * x * x
}

/// The alignment of two crystals, in thousandths.
pub fn crystal_alignment(a: &Crystal, b: &Crystal) -> (r: u32)
    requires
        a.wf(),
        b.wf(),
    ensures
        r == alignment(*a, *b),
        r <= UNIT,
{
    let dp = if a.phase >= b.phase { a.phase - b.phase } else { b.phase - a.phase };
    let dr = if a.resonance >= b.resonance { a.resonance - b.resonance } else { b.resonance - a.resonance };
    let sum = cube_u64(dp as u64) + cube_u64(dr as u64);
    (sum / 2_000_000) as u32
}

fn clamp_unit_exec(x: i64) -> (r: u32)
    ensures
        r == clamp_unit(x as int),
{
    if x < 0 {
        0
    } else if x > UNIT as i64 {
        UNIT
    } else {
        x as u32
    }
}

/// A value `draw` thousandths of the way through `[avg - spread, avg + spread]`
/// clamped to the unit interval, where `spread = range * alignment`.
fn bounded_random_around(avg: i64, alignment: u32, range: u32, draw: u32) -> (r: u32)
    requires
        -1000 <= avg <= 1000,
        alignment <= UNIT,
        range <= UNIT,
        draw <= 1000,
    ensures
        r == drawn_around(avg as int, alignment as int, range as int, draw as int),
        r <= UNIT,
{
    assert(range * alignment <= 1_000_000) by (nonlinear_arith)
        requires
            range <= 1000,
            alignment <= 1000,
    ;
    let spread = ((range as u64) * (alignment as u64) / 1000) as i64;
    let lo = clamp_unit_exec(avg - spread);
    let hi = clamp_unit_exec(avg + spread);
    assert((hi - lo) * draw <= (hi - lo) * 1000) by (nonlinear_arith)
        requires
            lo <= hi,
            draw <= 1000,
    ;
    assert((hi - lo) * draw >= 0) by (nonlinear_arith)
        requires
            lo <= hi,
    ;
    let step = (((hi - lo) as u64) * (draw as u64) / 1000) as u32;
    assert(step <= hi - lo) by (nonlinear_arith)
        requires
            step == (hi - lo) * draw / 1000,
            (hi - lo) * draw <= (hi - lo) * 1000,
            lo <= hi,
    ;
    lo + step
}

fn mix_channel(x: u8, y: u8) -> (r: u8)
    ensures
        r == mixed_channel(x, y),
{
    (((x as u32) + (y as u32)) % 255 / 2) as u8
}


/// The crystal that the crystals `a` and `b` combine into: the effect type of
/// `a` where `pick_a` holds, else that of `b`; phase and resonance taken
/// `phase_draw` and `resonance_draw` thousandths of the way through their ranges.
pub fn combine_crystals(a: &Crystal, b: &Crystal, pick_a: bool, phase_draw: u32, resonance_draw: u32) -> (c: Crystal)
    requires
        a.wf(),
        b.wf(),
        phase_draw <= 1000,
        resonance_draw <= 1000,
    ensures
        c == combined(*a, *b, pick_a, phase_draw as int, resonance_draw as int),
        c.wf(),
{
    let align = crystal_alignment(a, b);
    let sum = (a.effect.level as u64) + (b.effect.level as u64);
    assert(sum * (UNIT - align) <= 0x2_0000_0000 * 1000) by (nonlinear_arith)
        requires
            sum <= 0x2_0000_0000,
            align <= 1000,
    ;
    let raw = (sum * ((UNIT - align) as u64) + 500) / 1000;
    let level: u32 = if raw > u32::MAX as u64 { u32::MAX } else { raw as u32 };
    let effect_type = if pick_a { a.effect.effect_type } else { b.effect.effect_type };
    let phase = bounded_random_around(
        ((a.phase as i64) - (b.phase as i64)) / 2,
        align,
        500,
        phase_draw,
    );
    let resonance = bounded_random_around(
        ((a.resonance as i64) - (b.resonance as i64)) / 2,
        align,
        500,
        resonance_draw,
    );
    Crystal {
        color: ColorId::new(
            mix_channel(a.color.r, b.color.r),
            mix_channel(a.color.g, b.color.g),
            mix_channel(a.color.b, b.color.b),
        ),
        effect: Effect { effect_type, level },
        phase,
        resonance,
    }
}

/// Two identical crystals are perfectly aligned; their combination keeps the
/// sum of their levels, and keeps their colour where no channel exceeds 127.
pub proof fn lemma_combine_identical(a: Crystal, pick_a: bool, phase_draw: int, resonance_draw: int)
    requires
        a.wf(),
        a.effect.level * 2 <= u32::MAX,
    ensures
        alignment(a, a) == 0,
        combined(a, a, pick_a, phase_draw, resonance_draw).effect.level == 2 * a.effect.level,
        combined(a, a, pick_a, phase_draw, resonance_draw).effect.effect_type == a.effect.effect_type,
        a.color.r <= 127 && a.color.g <= 127 && a.color.b <= 127 ==> combined(
            a,
            a,
            pick_a,
            phase_draw,
            resonance_draw,
        ).color == a.color,
{
    assert(cube(0) == 0);
    let l = a.effect.level as int;
    assert(((l + l) * 1000 + 500) / 1000 == 2 * l);
}

/// Crystals that differ by the whole unit in phase and in resonance are
/// fully misaligned, and combine into a crystal of level zero.
pub proof fn lemma_combine_divergent(a: Crystal, b: Crystal, pick_a: bool, phase_draw: int, resonance_draw: int)
    requires
        a.wf(),
        b.wf(),
        abs_diff(a.phase as int, b.phase as int) == UNIT,
        abs_diff(a.resonance as int, b.resonance as int) == UNIT,
    ensures
        alignment(a, b) == UNIT,
        combined(a, b, pick_a, phase_draw, resonance_draw).effect.level == 0,
{
    assert(cube(1000) == 1_000_000_000);
    assert(alignment(a, b) == 1000);
    let l = a.effect.level + b.effect.level;
    assert(l * (UNIT - 1000) == 0);
    assert((l * (UNIT - 1000) + 500) / 1000 == 0);
}

/// The player's crystals, in the order they were gained.
pub struct Inventory {
    pub crystals: Vec<Crystal>,
}

impl Default for Inventory {
    fn default() -> (r: Inventory)
        ensures
            r.crystals@ == Seq::<Crystal>::empty(),
    {
        Inventory { crystals: Vec::new() }
    }
}

impl Inventory {
    pub open spec fn wf(self) -> bool {
        forall|i: int| 0 <= i < self.crystals@.len() ==> (#[trigger] self.crystals@[i]).wf()
    }

    pub fn new() -> (r: Inventory)
        ensures
            r.crystals@ == Seq::<Crystal>::empty(),
    {
        Inventory { crystals: Vec::new() }
    }

    /// Sells the crystal at `index`: the bar gains `XP_PER_LEVEL` for each
    /// level of it and the crystal leaves, the later ones moving down by one.
    /// An index past the end changes nothing.
    pub fn sell(&mut self, index: usize, bar: &mut XPBar) -> (r: Result<(), InventoryError>)
        ensures
            index >= old(self).crystals@.len() ==> r == Err::<(), _>(InventoryError::IndexOutOfBounds(index))
                && final(self).crystals@ == old(self).crystals@ && *final(bar) == *old(bar),
            index < old(self).crystals@.len() ==> r == Ok::<(), InventoryError>(())
                && final(self).crystals@ == old(self).crystals@.remove(index as int)
                && final(bar).level == old(bar).level
                && final(bar).current == saturating_add(
                    old(bar).current as int,
                    old(self).crystals@[index as int].effect.level * XP_PER_LEVEL,
                ),
            old(self).wf() ==> final(self).wf(),
    {
        if index >= self.crystals.len() {
            return Err(InventoryError::IndexOutOfBounds(index));
        }
        let level = self.crystals[index].effect.level as u64;
        bar.add(level * XP_PER_LEVEL);
        self.crystals.remove(index);
        Ok(())
    }

    /// Combines the crystals at `a` and `b` with the given draws: the result
    /// takes the lower index and the crystal at the higher one leaves.
    pub fn combine_with(&mut self, a: usize, b: usize, pick_a: bool, phase_draw: u32, resonance_draw: u32) -> (r: Result<(), InventoryError>)
        requires
            old(self).wf(),
            phase_draw <= 1000,
            resonance_draw <= 1000,
        ensures
            final(self).wf(),
            r == combine_outcome(old(self).crystals@.len(), a, b),
            r is Err ==> final(self).crystals@ == old(self).crystals@,
            r is Ok ==> final(self).crystals@ == after_combine(
                old(self).crystals@,
                a as int,
                b as int,
                combined(old(self).crystals@[a as int], old(self).crystals@[b as int], pick_a,
                    phase_draw as int, resonance_draw as int),
            ),
    {
        if a >= self.crystals.len() {
            return Err(InventoryError::IndexOutOfBounds(a));
        }
        if b >= self.crystals.len() {
            return Err(InventoryError::IndexOutOfBounds(b));
        }
        if a == b {
            return Err(InventoryError::SameIndex(a));
        }
        let c = combine_crystals(&self.crystals[a], &self.crystals[b], pick_a, phase_draw, resonance_draw);
        if a > b {
            self.crystals.remove(a);
            self.crystals.set(b, c);
        } else {
            self.crystals.remove(b);
            self.crystals.set(a, c);
        }
        Ok(())
    }

    /// Combines the crystals at `a` and `b` with random draws: the effect
    /// type of either parent, phase and resonance anywhere in their ranges.
    pub fn combine(&mut self, a: usize, b: usize) -> (r: Result<(), InventoryError>)
        requires
            old(self).wf(),
        ensures
            final(self).wf(),
            r == combine_outcome(old(self).crystals@.len(), a, b),
            r is Err ==> final(self).crystals@ == old(self).crystals@,
            r is Ok ==> exists|pick_a: bool, pd: int, rd: int|
                0 <= pd <= 1000 && 0 <= rd <= 1000 && final(self).crystals@ == after_combine(
                    old(self).crystals@,
                    a as int,
                    b as int,
                    combined(old(self).crystals@[a as int], old(self).crystals@[b as int], pick_a, pd, rd),
                ),
    {
        let pick_a = random_flag();
        let pd = random_in(0, 1000) as u32;
        let rd = random_in(0, 1000) as u32;
        self.combine_with(a, b, pick_a, pd, rd)
    }
}

/// The crystals picked in the inventory panel.
#[derive(Clone, Copy, Debug, PartialEq, Eq, Structural, Default)]
pub struct SelectedCrystals {
    pub first: Option<usize>,
    pub second: Option<usize>,
}

/// What a press of the inventory shortcuts did.
#[derive(Clone, Copy, Debug, PartialEq, Eq)]
pub enum ShortcutOutcome {
    Nothing,
    Sold(Result<(), InventoryError>),
    Combined(Result<(), InventoryError>),
}

impl SelectedCrystals {
    /// The sell key sells the first pick and clears it; otherwise the
    /// combine key combines the two picks and clears both. Either needs its
    /// picks.
    pub fn handle_inventory_shortcuts(
        &mut self,
        sell_pressed: bool,
        combine_pressed: bool,
        inventory: &mut Inventory,
        bar: &mut XPBar,
    ) -> (r: ShortcutOutcome)
        requires
            old(inventory).wf(),
        ensures
            final(inventory).wf(),
            sell_pressed && old(self).first is Some ==> {
                let i = old(self).first->Some_0;
                &&& r == ShortcutOutcome::Sold(
                    if i < old(inventory).crystals@.len() { Ok(()) } else { Err(InventoryError::IndexOutOfBounds(i)) },
                )
                &&& final(self).first is None
                &&& final(self).second == old(self).second
                &&& i < old(inventory).crystals@.len() ==> final(inventory).crystals@ == old(inventory).crystals@.remove(i as int)
                    && final(bar).current == saturating_add(
                        old(bar).current as int,
                        old(inventory).crystals@[i as int].effect.level * XP_PER_LEVEL,
                    )
                &&& i >= old(inventory).crystals@.len() ==> final(inventory).crystals@ == old(inventory).crystals@
                    && *final(bar) == *old(bar)
            },
            !(sell_pressed && old(self).first is Some) && combine_pressed && old(self).first is Some
                && old(self).second is Some ==> {
                let a = old(self).first->Some_0;
                let b = old(self).second->Some_0;
                &&& r == ShortcutOutcome::Combined(combine_outcome(old(inventory).crystals@.len(), a, b))
                &&& final(self).first is None && final(self).second is None
                &&& *final(bar) == *old(bar)
                &&& r != ShortcutOutcome::Combined(Ok(())) ==> final(inventory).crystals@ == old(inventory).crystals@
                &&& r == ShortcutOutcome::Combined(Ok(())) ==> exists|pick_a: bool, pd: int, rd: int|
                    0 <= pd <= 1000 && 0 <= rd <= 1000 && final(inventory).crystals@ == after_combine(
                        old(inventory).crystals@,
                        a as int,
                        b as int,
                        combined(old(inventory).crystals@[a as int], old(inventory).crystals@[b as int], pick_a, pd, rd),
                    )
            },
            !(sell_pressed && old(self).first is Some) && !(combine_pressed && old(self).first is Some
                && old(self).second is Some) ==> r == ShortcutOutcome::Nothing && *final(self) == *old(self)
                && final(inventory).crystals@ == old(inventory).crystals@ && *final(bar) == *old(bar),
    {
        if sell_pressed {
            if let Some(i) = self.first {
                let res = inventory.sell(i, bar);
                self.first = None;
                return ShortcutOutcome::Sold(res);
            }
        }
        if combine_pressed {
            if let (Some(a), Some(b)) = (self.first, self.second) {
                let res = inventory.combine(a, b);
                self.first = None;
                self.second = None;
                return ShortcutOutcome::Combined(res);
            }
        }
        ShortcutOutcome::Nothing
    }
}

/// Which error, if any, combining the crystals at `a` and `b` of `len` meets.
pub open spec fn combine_outcome(len: nat, a: usize, b: usize) -> Result<(), InventoryError> {
    if a >= len {
        Err(InventoryError::IndexOutOfBounds(a))
    } else if b >= len {
        Err(InventoryError::IndexOutOfBounds(b))
    } else if a == b {
        Err(InventoryError::SameIndex(a))
    } else {
        Ok(())
    }
}

pub open spec fn saturating_add(x: int, y: int) -> int {
    if x + y > u64::MAX {
        u64::MAX as int
    } else {
        x + y
    }
}

/// Experience, in thousandths, that level `level` needs before the next.
pub open spec fn xp_needed(level: nat) -> nat
    decreases level,
{
    if level == 0 {
        XP_FIRST_LEVEL as nat
    } else {
        2 * xp_needed((level - 1) as nat)
    }
}

/// The experience bar: a level and the experience gathered toward the next.
pub struct XPBar {
    pub level: u32,
    /// In thousandths of a point.
    pub current: u64,
}

impl XPBar {
    pub fn new() -> (r: XPBar)
        ensures
            r.level == 0 && r.current == 0,
    {
        XPBar { level: 0, current: 0 }
    }

    /// Adds `amount` thousandths of experience, saturating at `u64::MAX`.
    pub fn add(&mut self, amount: u64)
        ensures
            final(self).level == old(self).level,
            final(self).current == saturating_add(old(self).current as int, amount as int),
    {
        self.current = self.current.saturating_add(amount);
    }

    /// Experience, in thousandths, that the current level needs, saturating
    /// at `u64::MAX`.
    pub fn per_level(&self) -> (r: u64)
        ensures
            r == if xp_needed(self.level as nat) > u64::MAX { u64::MAX as int } else { xp_needed(self.level as nat) as int },
    {
        let mut need: u64 = XP_FIRST_LEVEL;
        let mut i: u32 = 0;
        while i < self.level
            invariant
                i <= self.level,
                need == xp_needed(i as nat),
            decreases self.level - i,
        {
            if need > u64::MAX / 2 {
                proof {
                    assert(xp_needed((i + 1) as nat) == 2 * xp_needed(i as nat));
                    lemma_xp_needed_grows((i + 1) as nat, self.level as nat);
                }
                return u64::MAX;
            }
            need = need * 2;
            i = i + 1;
        }
        need
    }

    /// How full the bar is drawn, in thousandths of its width: the
    /// experience gathered over what the level needs.
    pub fn fill(&self) -> (f: u128)
        ensures
            f == self.current * 1000 / (if xp_needed(self.level as nat) > u64::MAX {
                u64::MAX as int
            } else {
                xp_needed(self.level as nat) as int
            }),
    {
        let need = self.per_level();
        proof {
            lemma_xp_needed_grows(0, self.level as nat);
        }
        (self.current as u128) * 1000 / (need as u128)
    }

    /// Moves to the next level, with an empty bar, once the experience
    /// gathered exceeds what the level needs; says whether it did.
    pub fn update(&mut self) -> (leveled: bool)
        ensures
            leveled == (old(self).current > xp_needed(old(self).level as nat)),
            leveled ==> final(self).level == old(self).level + 1 && final(self).current == 0,
            !leveled ==> *final(self) == *old(self),
    {
        let need = self.per_level();
        if self.current > need {
            proof {
                if self.level as nat >= u32::MAX {
                    lemma_xp_needed_grows(50, self.level as nat);
                    lemma_xp_needed_large();
                }
            }
            self.level = self.level + 1;
            self.current = 0;
            true
        } else {
            false
        }
    }
}

proof fn lemma_xp_needed_grows(i: nat, j: nat)
    requires
        i <= j,
    ensures
        xp_needed(i) <= xp_needed(j),
    decreases j - i,
{
    if i < j {
        lemma_xp_needed_grows(i, (j - 1) as nat);
    }
}

proof fn lemma_xp_needed_large()
    ensures
        xp_needed(50) > u64::MAX,
{
    reveal_with_fuel(xp_needed, 51);
    assert(xp_needed(50) > u64::MAX);
}

} // verus!
