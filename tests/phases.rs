use alchemy::components::{InBackpack, WantsToDropItem, WantsToPickupItem, WantsToMelee, CombatStats, InflictsDamage, Position, Puddle, WantsToThrowItem, WantsToUseItem, Weight};
use alchemy::damage::{clean_up_dead, DamageSystem, MeleeCombatSystem};
use alchemy::effects::{EffectSet, Explosion, InstantHarm, LingerType, LingeringEffect, ProvidesHealing, Teleport};
use alchemy::map::{DungeonMap, TileType};
use alchemy::processor::{blast_damage_at, tile_blast_distance, StainEffect};
use alchemy::puddles::TrapSystem;
use alchemy::inventory::{InventorySystem, ItemDropSystem};
use alchemy::random_table::{RandomTable, SpawnEntry};
use alchemy::throwing::{roll_splash, ItemThrowSystem};
use alchemy::world::{EntityData, LogEntry, World};
use rltk::RandomNumberGenerator;

fn open_map(w: i32, h: i32) -> DungeonMap {
    let mut tiles = vec![TileType::Floor; (w * h) as usize];
    for y in 0..h {
        for x in 0..w {
            if x == 0 || y == 0 || x == w - 1 || y == h - 1 {
                tiles[(y * w + x) as usize] = TileType::Wall;
            }
        }
    }
    DungeonMap { tiles, width: w, height: h }
}

fn creature(x: i32, y: i32, hp: i32, max_hp: i32) -> EntityData {
    let mut e = EntityData::blank();
    e.pos = Some(Position { x, y });
    e.stats = Some(CombatStats { max_hp, hp, defence: 0, power: 1 });
    e
}

fn player_world(x: i32, y: i32, hp: i32, max_hp: i32) -> World {
    World::new(creature(x, y, hp, max_hp), "Player".to_string(), Position { x, y })
}

fn no_blasts(w: &World) -> Vec<Vec<Position>> {
    vec![Vec::new(); w.entities.len()]
}

#[test]
fn blast_damage_halves_at_distance_one() {
    assert_eq!(blast_damage_at(20, 1), 10);
    assert_eq!(blast_damage_at(20, 0), 10);
    assert_eq!(blast_damage_at(20, 16), 2);
    assert_eq!(blast_damage_at(21, 16), 2);
    assert_eq!(blast_damage_at(-20, 1), -10);
    let mut last = blast_damage_at(100, 0);
    for d2 in 0..2000i64 {
        let now = blast_damage_at(100, d2);
        assert!(now <= last);
        last = now;
    }
}

#[test]
fn blast_distance_rounds_and_clamps() {
    let o = Position { x: 0, y: 0 };
    assert_eq!(tile_blast_distance(o, Position { x: 0, y: 0 }), 1);
    assert_eq!(tile_blast_distance(o, Position { x: 1, y: 1 }), 1);
    assert_eq!(tile_blast_distance(o, Position { x: 2, y: 2 }), 3);
    assert_eq!(tile_blast_distance(o, Position { x: 4, y: 0 }), 4);
    assert_eq!(tile_blast_distance(o, Position { x: 5000, y: 0 }), 999);
    assert_eq!(tile_blast_distance(Position { x: i32::MIN, y: 0 }, Position { x: i32::MAX, y: 0 }), 999);
}

#[test]
fn explosion_hits_creatures_on_blast_tiles() {
    let map = open_map(10, 10);
    let mut w = player_world(2, 2, 30, 30);
    w.entities[0].effects.explosion = Some(Explosion { maxdmg: 20, radius: 3 });
    let m = w.spawn(creature(6, 2, 10, 10), "Orc".to_string());
    let mut blasts = no_blasts(&w);
    blasts[0] = vec![Position { x: 2, y: 2 }, Position { x: 6, y: 2 }, Position { x: 0, y: 0 }];
    let mut rng = RandomNumberGenerator::seeded(1);
    StainEffect {}.run(&mut w, &map, &blasts, &mut rng);
    assert_eq!(w.suffering.entries, vec![(0, 10), (m, 2)]);
    assert_eq!(w.entities[0].effects.explosion, None);
}

#[test]
fn staged_heal_and_harm_resolve() {
    let map = open_map(10, 10);
    let mut w = player_world(2, 2, 20, 30);
    w.entities[0].effects.heal = Some(ProvidesHealing { heal_amount: 15 });
    w.entities[0].effects.harm = Some(InstantHarm { dmg: 4 });
    let mut rng = RandomNumberGenerator::seeded(2);
    let blasts = no_blasts(&w);
    StainEffect {}.run(&mut w, &map, &blasts, &mut rng);
    assert_eq!(w.entities[0].stats.unwrap().hp, 30);
    assert_eq!(w.entities[0].effects.heal, None);
    assert_eq!(w.entities[0].effects.harm, None);
    assert_eq!(w.suffering.entries, vec![(0, 4)]);
}

#[test]
fn fire_spreads_to_neighbours_and_burns_out() {
    let map = open_map(10, 10);
    let mut w = player_world(4, 4, 30, 30);
    w.entities[0].effects.linger = Some(LingeringEffect { etype: LingerType::Fire, duration: 1, dmg: 2 });
    let near = w.spawn(creature(5, 5, 10, 10), "Rat".to_string());
    let far = w.spawn(creature(7, 7, 10, 10), "Bat".to_string());
    let mut rng = RandomNumberGenerator::seeded(3);
    let blasts = no_blasts(&w);
    StainEffect {}.run(&mut w, &map, &blasts, &mut rng);
    assert_eq!(w.entities[far].effects.linger, None);
    // the neighbour caught fire, burned once later in the phase, and set the
    // player (whose own fire had burned out) alight again
    assert_eq!(
        w.entities[0].effects.linger,
        Some(LingeringEffect { etype: LingerType::Fire, duration: 3, dmg: 2 })
    );
    assert_eq!(
        w.entities[near].effects.linger,
        Some(LingeringEffect { etype: LingerType::Fire, duration: 2, dmg: 2 })
    );
    assert_eq!(w.suffering.entries, vec![(0, 2), (near, 2)]);
}

#[test]
fn poison_does_not_spread() {
    let map = open_map(10, 10);
    let mut w = player_world(4, 4, 30, 30);
    w.entities[0].effects.linger = Some(LingeringEffect { etype: LingerType::Poison, duration: 3, dmg: 1 });
    let near = w.spawn(creature(5, 4, 10, 10), "Rat".to_string());
    let mut rng = RandomNumberGenerator::seeded(3);
    let blasts = no_blasts(&w);
    StainEffect {}.run(&mut w, &map, &blasts, &mut rng);
    assert_eq!(w.entities[near].effects.linger, None);
    assert_eq!(w.entities[0].effects.linger.unwrap().duration, 2);
}

#[test]
fn buffs_count_down_and_expire() {
    let map = open_map(10, 10);
    let mut w = player_world(4, 4, 30, 30);
    w.entities[0].effects.invulnerability = Some(alchemy::effects::Invulnerability { turns: 1 });
    w.entities[0].effects.strength = Some(alchemy::effects::Strength { turns: 0 });
    let mut rng = RandomNumberGenerator::seeded(3);
    let blasts = no_blasts(&w);
    StainEffect {}.run(&mut w, &map, &blasts, &mut rng);
    assert_eq!(w.entities[0].effects.invulnerability.unwrap().turns, 0);
    assert_eq!(w.entities[0].effects.strength, None);
    let blasts = no_blasts(&w);
    StainEffect {}.run(&mut w, &map, &blasts, &mut rng);
    assert_eq!(w.entities[0].effects.invulnerability, None);
}

#[test]
fn unsafe_teleport_into_a_wall_kills() {
    let map = DungeonMap { tiles: vec![TileType::Wall; 25], width: 5, height: 5 };
    let mut w = player_world(2, 2, 20, 20);
    w.entities[0].effects.teleport = Some(Teleport { safe: false });
    let mut rng = RandomNumberGenerator::seeded(4);
    let blasts = no_blasts(&w);
    let dests = StainEffect {}.run(&mut w, &map, &blasts, &mut rng);
    assert!(dests[0].is_some());
    assert_eq!(w.entities[0].stats.unwrap().hp, 0);
    assert_eq!(w.entities[0].pos, dests[0]);
    assert_eq!(w.view_pos, dests[0].unwrap());
    assert_eq!(w.entities[0].effects.teleport, None);
}

#[test]
fn teleport_onto_a_wall_tile_kills_at_once() {
    let map = open_map(6, 6);
    let mut w = player_world(2, 2, 20, 20);
    w.entities[0].effects.teleport = Some(Teleport { safe: false });
    w.teleport_to(&map, 0, Position { x: 5, y: 3 });
    assert_eq!(w.entities[0].stats.unwrap().hp, 0);
    assert_eq!(w.entities[0].pos, Some(Position { x: 5, y: 3 }));
}

#[test]
fn teleport_telefrags_the_occupant() {
    let map = open_map(6, 6);
    let mut w = player_world(2, 2, 20, 20);
    let victim = w.spawn(creature(3, 3, 5, 5), "Goblin".to_string());
    w.entities[0].effects.teleport = Some(Teleport { safe: true });
    w.teleport_to(&map, 0, Position { x: 3, y: 3 });
    assert_eq!(w.suffering.entries, vec![(victim, i32::MAX)]);
    assert_eq!(w.log, vec![LogEntry::TeleportsAway { who: 0 }, LogEntry::Telefragged { causer: 0, victim }]);
    assert_eq!(w.entities[0].stats.unwrap().hp, 20);
}

#[test]
fn safe_teleport_never_lands_in_a_wall() {
    let map = open_map(8, 8);
    for seed in 0..30u64 {
        let mut w = player_world(2, 2, 20, 20);
        w.entities[0].effects.teleport = Some(Teleport { safe: true });
        let mut rng = RandomNumberGenerator::seeded(seed);
        let blasts = no_blasts(&w);
        let dests = StainEffect {}.run(&mut w, &map, &blasts, &mut rng);
        let d = dests[0].unwrap();
        assert!(d.x >= 2 && d.x <= 6 && d.y >= 2 && d.y <= 6);
        assert_eq!(w.entities[0].stats.unwrap().hp, 20);
    }
}

fn puddle(x: i32, y: i32, lifetime: i32, effects: EffectSet) -> EntityData {
    let mut e = EntityData::blank();
    e.pos = Some(Position { x, y });
    e.puddle = Some(Puddle { lifetime });
    e.effects = effects;
    e
}

#[test]
fn puddle_restages_only_missing_kinds() {
    let mut w = player_world(3, 3, 20, 20);
    w.entities[0].effects.harm = Some(InstantHarm { dmg: 1 });
    let mut fx = EffectSet::none();
    fx.harm = Some(InstantHarm { dmg: 9 });
    fx.heal = Some(ProvidesHealing { heal_amount: 2 });
    w.spawn(puddle(3, 3, 3, fx), String::new());
    TrapSystem {}.run(&mut w);
    assert_eq!(w.entities[0].effects.harm, Some(InstantHarm { dmg: 1 }));
    assert_eq!(w.entities[0].effects.heal, Some(ProvidesHealing { heal_amount: 2 }));
}

#[test]
fn puddle_dries_up_after_its_lifetime() {
    let mut w = player_world(1, 1, 20, 20);
    let p = w.spawn(puddle(3, 3, 3, EffectSet::none()), String::new());
    TrapSystem {}.run(&mut w);
    assert_eq!(w.entities[p].puddle, Some(Puddle { lifetime: 2 }));
    assert!(w.entities[p].alive);
    TrapSystem {}.run(&mut w);
    assert!(w.entities[p].alive);
    TrapSystem {}.run(&mut w);
    assert_eq!(w.entities[p].puddle, Some(Puddle { lifetime: 0 }));
    assert!(!w.entities[p].alive);
}

#[test]
fn drinking_a_heal_triples_it() {
    let map = open_map(10, 10);
    let mut w = player_world(2, 2, 20, 30);
    let mut fx = EffectSet::none();
    fx.heal = Some(ProvidesHealing { heal_amount: 3 });
    let mut p = EntityData::blank();
    p.item = true;
    p.consumable = true;
    p.potion = true;
    p.effects = fx;
    p.in_backpack = Some(InBackpack { owner: 0 });
    let item = w.spawn(p, "Health potion".to_string());
    let mut rng = RandomNumberGenerator::seeded(5);
    w.use_item(&map, 0, WantsToUseItem { item, target: None }, &Vec::new(), &mut rng);
    assert_eq!(w.entities[0].stats.unwrap().hp, 29);
    assert!(!w.entities[item].alive);
    assert_eq!(w.log, vec![LogEntry::UsedHealing { item, amount: 9 }]);
}

#[test]
fn using_a_damage_item_on_a_tile() {
    let map = open_map(10, 10);
    let mut w = player_world(2, 2, 20, 30);
    let orc = w.spawn(creature(5, 5, 10, 10), "Orc".to_string());
    let mut scroll = EntityData::blank();
    scroll.item = true;
    scroll.consumable = true;
    scroll.inflicts = Some(InflictsDamage { damage: 8 });
    let item = w.spawn(scroll, "Missile".to_string());
    let mut rng = RandomNumberGenerator::seeded(5);
    w.use_item(&map, 0, WantsToUseItem { item, target: Some(Position { x: 5, y: 5 }) }, &Vec::new(), &mut rng);
    assert_eq!(w.suffering.entries, vec![(orc, 8)]);
    assert_eq!(w.log, vec![LogEntry::UsedDamage { item, target: orc, amount: 8 }]);
}

#[test]
fn throwing_a_harm_potion_splashes_puddles() {
    let map = open_map(10, 10);
    let mut w = player_world(2, 2, 20, 30);
    let monster = w.spawn(creature(5, 5, 10, 10), "Orc".to_string());
    let mut p = EntityData::blank();
    p.item = true;
    p.consumable = true;
    p.potion = true;
    p.effects.harm = Some(InstantHarm { dmg: 5 });
    p.in_backpack = Some(InBackpack { owner: 0 });
    let item = w.spawn(p, "Harm potion".to_string());
    let before = w.entities.len();
    let mut rng = RandomNumberGenerator::seeded(6);
    let offsets = ItemThrowSystem {}.run(&mut w, &map, &vec![WantsToThrowItem { item, target: Position { x: 5, y: 5 } }], &mut rng);
    assert_eq!(w.entities[monster].effects.harm, Some(InstantHarm { dmg: 5 }));
    assert!(w.entities[monster].agitated.is_some());
    assert!(!w.entities[item].alive);
    let made = w.entities.len() - before;
    assert!(made >= 1 && made <= 7);
    assert_eq!(made, offsets[0].len());
    for e in &w.entities[before..] {
        assert_eq!(e.effects.harm, Some(InstantHarm { dmg: 5 }));
        assert_eq!(e.puddle, Some(Puddle { lifetime: 3 }));
    }
    assert_eq!(w.suffering.entries, vec![(monster, 1)]);
}

#[test]
fn throwing_a_rock_leaves_it_on_the_tile() {
    let map = open_map(10, 10);
    let mut w = player_world(2, 2, 20, 30);
    let monster = w.spawn(creature(5, 5, 10, 10), "Orc".to_string());
    let mut rock = EntityData::blank();
    rock.item = true;
    rock.weight = Some(Weight(4));
    rock.in_backpack = Some(InBackpack { owner: 0 });
    let item = w.spawn(rock, "Rock".to_string());
    let mut rng = RandomNumberGenerator::seeded(6);
    ItemThrowSystem {}.run(&mut w, &map, &vec![WantsToThrowItem { item, target: Position { x: 5, y: 5 } }], &mut rng);
    assert!(w.entities[item].alive);
    assert_eq!(w.entities[item].pos, Some(Position { x: 5, y: 5 }));
    assert_eq!(w.entities[item].in_backpack, None);
    assert_eq!(w.suffering.entries, vec![(monster, 4)]);
}

#[test]
fn splashes_vary_with_the_seed() {
    let mut seen = std::collections::HashSet::new();
    for seed in 0..30u64 {
        let mut rng = RandomNumberGenerator::seeded(seed);
        let r = roll_splash(&mut rng);
        assert!(r.len() >= 4 && r.len() <= 7);
        assert_eq!(r[0], (0, 0));
        for o in &r[1..] {
            seen.insert(*o);
        }
    }
    assert!(seen.len() >= 2);
}

#[test]
fn damage_never_drops_below_zero_and_shatters_potions() {
    let mut w = player_world(2, 2, 10, 10);
    let mut flask = EntityData::blank();
    flask.potion = true;
    flask.item = true;
    flask.pos = Some(Position { x: 4, y: 4 });
    let f = w.spawn(flask, "flask".to_string());
    w.suffering.new_damage(0, 3);
    w.suffering.new_damage(0, 20);
    w.suffering.new_damage(f, 1);
    w.suffering.new_damage(f, 1);
    let shattered = DamageSystem {}.run(&mut w);
    assert_eq!(w.entities[0].stats.unwrap().hp, 0);
    assert!(w.suffering.entries.is_empty());
    assert_eq!(shattered, vec![WantsToThrowItem { item: f, target: Position { x: 4, y: 4 } }]);
}

#[test]
fn the_dead_are_cleared_and_announced() {
    let mut map = open_map(6, 6);
    map.tiles[7] = TileType::FinalDoor;
    let mut w = player_world(2, 2, 0, 10);
    let goblin = w.spawn(creature(3, 3, 0, 5), "Goblin".to_string());
    let mut boss = creature(4, 4, -3, 50);
    boss.boss = true;
    let b = w.spawn(boss, "Alchemist".to_string());
    clean_up_dead(&mut w, &mut map);
    assert!(w.entities[0].alive);
    assert!(!w.entities[goblin].alive && !w.entities[b].alive);
    assert_eq!(w.log, vec![LogEntry::PlayerDead, LogEntry::Dies { who: goblin }, LogEntry::BossDefeated]);
    assert_eq!(map.tiles[7], TileType::Floor);
    clean_up_dead(&mut w, &mut map);
    assert_eq!(w.log.len(), 4);
    assert_eq!(w.log[3], LogEntry::PlayerDead);
    clean_up_dead(&mut w, &mut map);
    assert_eq!(w.log.len(), 4);
}

#[test]
fn random_table_picks_by_weight() {
    let t = RandomTable::new().add(SpawnEntry::Goblin, 10).add(SpawnEntry::Ork, 5);
    assert_eq!(t.pick(0), SpawnEntry::Nothing);
    assert_eq!(t.pick(3), SpawnEntry::Goblin);
    assert_eq!(t.pick(9), SpawnEntry::Goblin);
    assert_eq!(t.pick(10), SpawnEntry::Nothing);
    assert_eq!(t.pick(11), SpawnEntry::Ork);
    assert_eq!(t.pick(14), SpawnEntry::Ork);
    assert_eq!(RandomTable::new().roll(&mut RandomNumberGenerator::seeded(1)), SpawnEntry::Nothing);
    let mut rng = RandomNumberGenerator::seeded(8);
    let mut kinds = std::collections::HashSet::new();
    for _ in 0..60 {
        kinds.insert(format!("{:?}", t.roll(&mut rng)));
    }
    assert!(kinds.len() >= 2);
}

#[test]
fn strength_doubles_a_melee_blow() {
    let mut w = player_world(2, 2, 20, 20);
    let orc = w.spawn(creature(3, 2, 10, 10), "Orc".to_string());
    w.entities[orc].stats = Some(CombatStats { max_hp: 10, hp: 10, defence: 1, power: 1 });
    w.entities[0].effects.strength = Some(alchemy::effects::Strength { turns: 2 });
    w.entities[0].stats = Some(CombatStats { max_hp: 20, hp: 20, defence: 1, power: 1 });
    MeleeCombatSystem {}.run(&mut w, &vec![WantsToMelee { attacker: 0, target: orc }, WantsToMelee { attacker: orc, target: 0 }]);
    assert_eq!(w.suffering.entries, vec![(orc, 1)]);
    assert_eq!(
        w.log,
        vec![
            LogEntry::MeleeHurts { attacker: 0, target: orc, amount: 1 },
            LogEntry::MeleeCannotHurt { attacker: orc, target: 0 },
        ]
    );
}

#[test]
fn picking_up_and_dropping_items() {
    let mut w = player_world(2, 2, 20, 20);
    let mut flask = EntityData::blank();
    flask.item = true;
    flask.pos = Some(Position { x: 2, y: 2 });
    let f = w.spawn(flask, "Flask".to_string());
    let mut stone = EntityData::blank();
    stone.item = true;
    stone.macguffin = true;
    stone.pos = Some(Position { x: 2, y: 2 });
    let s = w.spawn(stone, "Stone".to_string());
    let won = InventorySystem {}.run(&mut w, &vec![WantsToPickupItem { collected_by: 0, item: f }]);
    assert!(!won);
    assert_eq!(w.entities[f].pos, None);
    assert_eq!(w.entities[f].in_backpack, Some(InBackpack { owner: 0 }));
    let won = InventorySystem {}.run(&mut w, &vec![WantsToPickupItem { collected_by: 0, item: s }]);
    assert!(won);
    w.entities[0].pos = Some(Position { x: 6, y: 7 });
    ItemDropSystem {}.run(&mut w, &vec![WantsToDropItem { dropper: 0, item: f }]);
    assert_eq!(w.entities[f].pos, Some(Position { x: 6, y: 7 }));
    assert_eq!(w.entities[f].in_backpack, None);
    assert_eq!(w.log, vec![LogEntry::PickedUp { item: f }, LogEntry::ObtainedStone, LogEntry::Dropped { item: f }]);
}

#[test]
fn puddle_restages_confusion_and_buffs() {
    let mut w = player_world(3, 3, 20, 20);
    let mut fx = EffectSet::none();
    fx.confusion = Some(alchemy::effects::Confusion { turns: 4 });
    fx.strength = Some(alchemy::effects::Strength { turns: 2 });
    w.spawn(puddle(3, 3, 3, fx), String::new());
    TrapSystem {}.run(&mut w);
    assert_eq!(w.entities[0].effects.confusion, Some(alchemy::effects::Confusion { turns: 4 }));
    assert_eq!(w.entities[0].effects.strength, Some(alchemy::effects::Strength { turns: 2 }));
}

#[test]
fn a_use_without_a_target_affects_the_user() {
    let map = open_map(10, 10);
    let mut w = player_world(2, 2, 20, 30);
    let orc = w.spawn(creature(6, 6, 10, 10), "Orc".to_string());
    let mut p = EntityData::blank();
    p.item = true;
    p.consumable = true;
    p.potion = true;
    p.effects.linger = Some(LingeringEffect { etype: LingerType::Poison, duration: 2, dmg: 1 });
    p.effects.strength = Some(alchemy::effects::Strength { turns: 3 });
    p.in_backpack = Some(InBackpack { owner: orc });
    let item = w.spawn(p, "Potion".to_string());
    let mut rng = RandomNumberGenerator::seeded(9);
    w.use_item(&map, orc, WantsToUseItem { item, target: None }, &Vec::new(), &mut rng);
    assert!(w.entities[orc].effects.linger.is_some());
    assert_eq!(w.entities[orc].effects.strength, Some(alchemy::effects::Strength { turns: 3 }));
    assert_eq!(w.entities[0].effects.linger, None);
    assert_eq!(w.entities[0].effects.strength, None);
}

#[test]
fn instant_harm_on_use_goes_to_the_accumulator() {
    let map = open_map(10, 10);
    let mut w = player_world(2, 2, 20, 30);
    let orc = w.spawn(creature(5, 5, 10, 10), "Orc".to_string());
    let mut p = EntityData::blank();
    p.item = true;
    p.consumable = true;
    p.effects.harm = Some(InstantHarm { dmg: 6 });
    let item = w.spawn(p, "Harm".to_string());
    let mut rng = RandomNumberGenerator::seeded(9);
    w.use_item(&map, 0, WantsToUseItem { item, target: Some(Position { x: 5, y: 5 }) }, &Vec::new(), &mut rng);
    assert_eq!(w.suffering.entries, vec![(orc, 6)]);
    assert_eq!(w.entities[orc].effects.harm, None);
}

#[test]
fn random_table_accepts_negative_weights() {
    let _table = RandomTable::new().add(SpawnEntry::Goblin, 5).add(SpawnEntry::Ork, -2).add(SpawnEntry::Ork, 2);
}
