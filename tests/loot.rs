use orbit_archer::loot::{
    combine_crystals, crystal_alignment, ColorId, Crystal, Effect, EffectType, Inventory, InventoryError,
    SelectedCrystals, ShortcutOutcome, XPBar,
};

fn crystal(color: (u8, u8, u8), effect_type: EffectType, level: u32, phase: u32, resonance: u32) -> Crystal {
    Crystal {
        color: ColorId::new(color.0, color.1, color.2),
        effect: Effect { effect_type, level },
        phase,
        resonance,
    }
}

#[test]
fn alignment_is_the_mean_of_cubed_gaps() {
    let a = crystal((0, 0, 0), EffectType::Poison, 1, 300, 700);
    assert_eq!(crystal_alignment(&a, &a), 0);
    let lo = crystal((0, 0, 0), EffectType::Poison, 1, 0, 0);
    let hi = crystal((0, 0, 0), EffectType::Poison, 1, 1000, 1000);
    assert_eq!(crystal_alignment(&lo, &hi), 1000);
    let half = crystal((0, 0, 0), EffectType::Poison, 1, 500, 0);
    assert_eq!(crystal_alignment(&lo, &half), 62);
}

#[test]
fn identical_crystals_keep_level_sum_and_colour() {
    let a = crystal((100, 50, 20), EffectType::Speed, 3, 300, 300);
    let c = combine_crystals(&a, &a, true, 500, 500);
    assert_eq!(c.effect.level, 6);
    assert_eq!(c.effect.effect_type, EffectType::Speed);
    assert_eq!(c.color, a.color);
    assert_eq!(c.phase, 0);
    assert_eq!(c.resonance, 0);
}

#[test]
fn divergent_crystals_drop_to_level_zero() {
    let a = crystal((0, 0, 0), EffectType::Fire, 5, 1000, 1000);
    let b = crystal((0, 0, 0), EffectType::Poison, 7, 0, 0);
    let c = combine_crystals(&a, &b, false, 250, 1000);
    assert_eq!(c.effect.level, 0);
    assert_eq!(c.effect.effect_type, EffectType::Poison);
    assert_eq!(c.phase, 250);
    assert_eq!(c.resonance, 1000);
}

#[test]
fn colours_mix_modulo_255() {
    let a = crystal((200, 255, 0), EffectType::Fire, 1, 0, 0);
    let b = crystal((100, 1, 0), EffectType::Fire, 1, 0, 0);
    let c = combine_crystals(&a, &b, true, 0, 0);
    assert_eq!(c.color, ColorId::new(22, 0, 0));
}

#[test]
fn level_rounds_half_up() {
    let a = crystal((0, 0, 0), EffectType::Fire, 1, 0, 0);
    let b = crystal((0, 0, 0), EffectType::Fire, 2, 500, 0);
    assert_eq!(combine_crystals(&a, &b, true, 0, 0).effect.level, 3);
    let c = crystal((0, 0, 0), EffectType::Fire, 0, 1000, 0);
    assert_eq!(combine_crystals(&a, &c, true, 0, 0).effect.level, 1);
}

#[test]
fn sell_out_of_range_changes_nothing() {
    let mut inv = Inventory::new();
    inv.crystals.push(crystal((1, 2, 3), EffectType::Poison, 2, 0, 0));
    let mut bar = XPBar::new();
    assert_eq!(inv.sell(5, &mut bar), Err(InventoryError::IndexOutOfBounds(5)));
    assert_eq!(inv.crystals.len(), 1);
    assert_eq!(bar.current, 0);
    assert_eq!(bar.level, 0);
}

#[test]
fn sell_pays_per_level_and_shifts() {
    let mut inv = Inventory::new();
    inv.crystals.push(crystal((1, 2, 3), EffectType::Poison, 2, 0, 0));
    inv.crystals.push(crystal((4, 5, 6), EffectType::Fire, 1, 0, 0));
    let mut bar = XPBar::new();
    assert_eq!(inv.sell(0, &mut bar), Ok(()));
    assert_eq!(bar.current, 20_000);
    assert_eq!(inv.crystals.len(), 1);
    assert_eq!(inv.crystals[0].color, ColorId::new(4, 5, 6));
}

#[test]
fn combine_refuses_bad_indices() {
    let mut inv = Inventory::new();
    inv.crystals.push(crystal((1, 2, 3), EffectType::Poison, 2, 0, 0));
    inv.crystals.push(crystal((4, 5, 6), EffectType::Fire, 1, 0, 0));
    assert_eq!(inv.combine_with(2, 0, true, 0, 0), Err(InventoryError::IndexOutOfBounds(2)));
    assert_eq!(inv.combine_with(0, 7, true, 0, 0), Err(InventoryError::IndexOutOfBounds(7)));
    assert_eq!(inv.combine_with(1, 1, true, 0, 0), Err(InventoryError::SameIndex(1)));
    assert_eq!(inv.combine(1, 1), Err(InventoryError::SameIndex(1)));
    assert_eq!(inv.crystals.len(), 2);
}

#[test]
fn combine_puts_the_result_at_the_lower_index() {
    let a = crystal((10, 10, 10), EffectType::Poison, 2, 0, 0);
    let b = crystal((20, 20, 20), EffectType::Speed, 2, 0, 0);
    let c = crystal((30, 30, 30), EffectType::Fire, 2, 0, 0);
    let mut inv = Inventory::new();
    inv.crystals.push(a);
    inv.crystals.push(b);
    inv.crystals.push(c);
    assert_eq!(inv.combine_with(2, 0, true, 0, 0), Ok(()));
    assert_eq!(inv.crystals.len(), 2);
    assert_eq!(inv.crystals[0], combine_crystals(&c, &a, true, 0, 0));
    assert_eq!(inv.crystals[0].effect.effect_type, EffectType::Fire);
    assert_eq!(inv.crystals[0].color, ColorId::new(20, 20, 20));
    assert_eq!(inv.crystals[1], b);
}

#[test]
fn random_combine_consumes_both_parents() {
    let mut inv = Inventory::new();
    inv.crystals.push(crystal((10, 10, 10), EffectType::Poison, 2, 100, 900));
    inv.crystals.push(crystal((20, 20, 20), EffectType::Speed, 4, 800, 200));
    assert_eq!(inv.combine(0, 1), Ok(()));
    assert_eq!(inv.crystals.len(), 1);
    let c = inv.crystals[0];
    assert!(c.phase <= 1000 && c.resonance <= 1000);
    assert!(c.effect.effect_type == EffectType::Poison || c.effect.effect_type == EffectType::Speed);
}

#[test]
fn xp_bar_levels_up_past_the_threshold() {
    let mut bar = XPBar::new();
    assert_eq!(bar.per_level(), 50_000);
    bar.add(50_000);
    assert!(!bar.update());
    bar.add(1);
    assert!(bar.update());
    assert_eq!(bar.level, 1);
    assert_eq!(bar.current, 0);
    assert_eq!(bar.per_level(), 100_000);
    let high = XPBar { level: 60, current: u64::MAX };
    assert_eq!(high.per_level(), u64::MAX);
    let mut full = XPBar { level: 0, current: u64::MAX - 1 };
    full.add(10);
    assert_eq!(full.current, u64::MAX);
}

#[test]
fn bar_fill_is_gathered_over_needed() {
    let bar = XPBar { level: 1, current: 25_000 };
    assert_eq!(bar.fill(), 250);
    assert_eq!(XPBar::new().fill(), 0);
}

#[test]
fn shortcuts_sell_or_combine_the_picks() {
    let mut inv = Inventory::new();
    inv.crystals.push(crystal((1, 2, 3), EffectType::Poison, 2, 0, 0));
    inv.crystals.push(crystal((4, 5, 6), EffectType::Fire, 1, 0, 0));
    inv.crystals.push(crystal((7, 8, 9), EffectType::Speed, 1, 0, 0));
    let mut bar = XPBar::new();
    let mut sel = SelectedCrystals { first: Some(0), second: Some(1) };
    assert_eq!(sel.handle_inventory_shortcuts(true, true, &mut inv, &mut bar), ShortcutOutcome::Sold(Ok(())));
    assert_eq!(sel, SelectedCrystals { first: None, second: Some(1) });
    assert_eq!(bar.current, 20_000);
    assert_eq!(inv.crystals.len(), 2);
    assert_eq!(sel.handle_inventory_shortcuts(false, true, &mut inv, &mut bar), ShortcutOutcome::Nothing);
    sel.first = Some(0);
    assert_eq!(sel.handle_inventory_shortcuts(false, true, &mut inv, &mut bar), ShortcutOutcome::Combined(Ok(())));
    assert_eq!(sel, SelectedCrystals { first: None, second: None });
    assert_eq!(inv.crystals.len(), 1);
    sel.first = Some(4);
    assert_eq!(
        sel.handle_inventory_shortcuts(true, false, &mut inv, &mut bar),
        ShortcutOutcome::Sold(Err(InventoryError::IndexOutOfBounds(4)))
    );
    assert_eq!(inv.crystals.len(), 1);
}
