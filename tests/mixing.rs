use alchemy::combo::{generate_combos, ComboTable};
use alchemy::components::WantsToMixPotions;
use alchemy::effects::{
    diminished_sum, EffectSet, Explosion, InstantHarm, LingerType, LingeringEffect, PotionEffect,
    ProvidesHealing, Teleport,
};
use alchemy::mixing::{potion_name, tint_steps, AlchemySystem, Hue, TintStep};
use alchemy::world::{EntityData, LogEntry, World};
use alchemy::components::{InBackpack, Position, Weight};

fn potion(effects: EffectSet) -> EntityData {
    let mut e = EntityData::blank();
    e.item = true;
    e.consumable = true;
    e.potion = true;
    e.effects = effects;
    e
}

fn world_with(a: EntityData, b: EntityData) -> World {
    let mut w = World::new(EntityData::blank(), "Player".to_string(), Position { x: 1, y: 1 });
    w.spawn(a, "first".to_string());
    w.spawn(b, "second".to_string());
    w
}

fn heal(n: i32) -> EffectSet {
    let mut e = EffectSet::none();
    e.heal = Some(ProvidesHealing { heal_amount: n });
    e
}

fn harm(n: i32) -> EffectSet {
    let mut e = EffectSet::none();
    e.harm = Some(InstantHarm { dmg: n });
    e
}

fn linger(kind: LingerType, duration: i32, dmg: i32) -> EffectSet {
    let mut e = EffectSet::none();
    e.linger = Some(LingeringEffect { etype: kind, duration, dmg });
    e
}

#[test]
fn combo_table_is_the_same_for_the_same_seed() {
    for seed in [0u64, 1, 7, 42, 12345, u64::MAX] {
        let a = generate_combos(seed);
        let b = generate_combos(seed);
        assert_eq!(a.entries, b.entries);
        assert!(a.entries.len() == 3);
    }
}

#[test]
fn combo_tables_differ_between_seeds() {
    let first = generate_combos(0).entries;
    let differs = (1u64..40).any(|s| generate_combos(s).entries != first);
    assert!(differs);
}

#[test]
fn combo_table_keys_join_teleport_with_another_kind() {
    let t = generate_combos(99);
    let mut specials = 0;
    for (key, effect) in t.entries.iter() {
        match effect {
            PotionEffect::Invulnerability(_) | PotionEffect::Strength(_) => {
                assert!(key & 2 == 2);
                assert_eq!(key.count_ones(), 2);
                specials += 1;
            }
            PotionEffect::Heal(h) => {
                assert_eq!(h.heal_amount, 3);
                assert_eq!(key.count_ones(), 2);
                assert_eq!(key & 3, 0);
            }
            _ => panic!("unexpected combo effect"),
        }
    }
    assert_eq!(specials, 2);
}

#[test]
fn combo_table_lookup_takes_the_last_entry() {
    let mut t = ComboTable::new();
    t.insert(6, PotionEffect::Heal(ProvidesHealing { heal_amount: 1 }));
    t.insert(6, PotionEffect::Heal(ProvidesHealing { heal_amount: 2 }));
    assert_eq!(t.get(6), Some(PotionEffect::Heal(ProvidesHealing { heal_amount: 2 })));
    assert_eq!(t.get(10), None);
}

#[test]
fn diminished_sum_rounds_three_fifths() {
    assert_eq!(diminished_sum(5, 7), 7);
    assert_eq!(diminished_sum(1, 1), 1);
    assert_eq!(diminished_sum(2, 3), 3);
    assert_eq!(diminished_sum(3, 3), 4);
    assert_eq!(diminished_sum(0, 0), 0);
    assert_eq!(diminished_sum(-5, -7), -7);
    assert_eq!(diminished_sum(10, 10), 12);
}

#[test]
fn mixing_heals_adds_amounts() {
    let mut w = world_with(potion(heal(3)), potion(heal(5)));
    let mut sys = AlchemySystem {};
    assert_eq!(sys.run(&mut w, &vec![WantsToMixPotions { first: 1, second: 2 }], 7), 1);
    assert_eq!(w.entities.len(), 4);
    assert!(!w.entities[1].alive && !w.entities[2].alive);
    let made = w.entities[3];
    assert_eq!(made.effects.heal, Some(ProvidesHealing { heal_amount: 8 }));
    assert!(made.potion && made.item && made.consumable);
    assert_eq!(made.in_backpack, Some(InBackpack { owner: 0 }));
    assert_eq!(made.weight, Some(Weight(2)));
    assert_eq!(w.names[3], "Health potion");
}

#[test]
fn mixing_harms_diminishes_in_either_order() {
    for (a, b) in [(1usize, 2usize), (2, 1)] {
        let mut w = world_with(potion(harm(5)), potion(harm(7)));
        let mut sys = AlchemySystem {};
        sys.run(&mut w, &vec![WantsToMixPotions { first: a, second: b }], 3);
        assert_eq!(w.entities[3].effects.harm, Some(InstantHarm { dmg: 7 }));
        assert_eq!(w.names[3], "Harm potion");
    }
}

#[test]
fn mixing_heal_with_harm_explodes_on_the_player() {
    let mut a = heal(4);
    a.teleport = Some(Teleport { safe: true });
    let mut w = world_with(potion(a), potion(harm(2)));
    let mut sys = AlchemySystem {};
    sys.run(&mut w, &vec![WantsToMixPotions { first: 1, second: 2 }], 11);
    assert_eq!(w.entities.len(), 3);
    assert!(!w.entities[1].alive && !w.entities[2].alive);
    assert_eq!(w.entities[0].effects.explosion, Some(Explosion { maxdmg: 20, radius: 5 }));
    assert_eq!(w.log, vec![LogEntry::MixExplodes]);
}

#[test]
fn mixing_fire_with_poison_burns() {
    let mut w = world_with(potion(linger(LingerType::Poison, 4, 1)), potion(linger(LingerType::Fire, 2, 3)));
    let mut sys = AlchemySystem {};
    sys.run(&mut w, &vec![WantsToMixPotions { first: 1, second: 2 }], 5);
    let l = w.entities[3].effects.linger.unwrap();
    assert_eq!(l.etype, LingerType::Fire);
    assert_eq!(l.duration, 4);
    assert_eq!(l.dmg, 1);
    assert_eq!(w.names[3], "Fire potion");
}

#[test]
fn mixing_a_non_potion_is_refused() {
    let mut not_potion = potion(heal(2));
    not_potion.potion = false;
    let mut w = world_with(not_potion, potion(heal(1)));
    let mut sys = AlchemySystem {};
    sys.run(&mut w, &vec![WantsToMixPotions { first: 1, second: 2 }], 5);
    assert_eq!(w.entities.len(), 3);
    assert!(w.entities[1].alive && w.entities[2].alive);
    assert_eq!(w.log, vec![LogEntry::CannotMix]);
}

#[test]
fn mixed_weight_sums_with_default_one() {
    let mut a = potion(heal(1));
    a.weight = Some(Weight(4));
    let mut w = world_with(a, potion(heal(1)));
    let mut sys = AlchemySystem {};
    sys.run(&mut w, &vec![WantsToMixPotions { first: 1, second: 2 }], 5);
    assert_eq!(w.entities[3].weight, Some(Weight(5)));
}

#[test]
fn names_and_tints_follow_kind_order() {
    let mut e = harm(1);
    e.heal = Some(ProvidesHealing { heal_amount: 1 });
    e.linger = Some(LingeringEffect { etype: LingerType::Poison, duration: 1, dmg: 1 });
    assert_eq!(potion_name(&e), "Health + Harm + Poison potion");
    assert_eq!(
        tint_steps(&e),
        vec![TintStep::Blend(Hue::Magenta), TintStep::Blend(Hue::DarkRed), TintStep::Blend(Hue::Green)]
    );
    assert_eq!(potion_name(&EffectSet::none()), " potion");
}

#[test]
fn mixing_stops_at_an_unknown_entity_or_an_overflow() {
    let mut w = world_with(potion(heal(i32::MAX)), potion(heal(1)));
    let mut sys = AlchemySystem {};
    let done = sys.run(
        &mut w,
        &vec![WantsToMixPotions { first: 1, second: 9 }, WantsToMixPotions { first: 1, second: 2 }],
        7,
    );
    assert_eq!(done, 0);
    assert!(w.log.is_empty());
    let done = sys.run(&mut w, &vec![WantsToMixPotions { first: 1, second: 2 }], 7);
    assert_eq!(done, 0);
    assert!(w.entities[1].alive && w.entities[2].alive);
}

#[test]
fn combo_tables_always_hold_three_distinct_keys() {
    for seed in 0u64..50 {
        let t = generate_combos(seed);
        let keys: std::collections::HashSet<u8> = t.entries.iter().map(|(k, _)| *k).collect();
        assert_eq!(keys.len(), 3);
    }
}
