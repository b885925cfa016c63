//! Damage resolution: the accumulated damage of a phase is subtracted once,
//! potions that took a hard knock shatter, and the dead are cleared away.

use vstd::prelude::*;
use crate::components::{CombatStats, WantsToMelee, WantsToThrowItem};
use crate::effects::fits_i32;
use crate::map::{DungeonMap, TileType};
use crate::world::{EntityData, LogEntry, World, WorldState};

verus! {

/// Damage a floor potion must take in one phase to shatter.
pub const SHATTER_DAMAGE: i32 = 2;

/// Hit points after a hit of `amount`: never below zero.
pub open spec fn after_hit(hp: i32, amount: i32) -> i32 {
    let left = hp - amount;
    (if left < 0 { 0 } else if left > i32::MAX { i32::MAX as int } else { left }) as i32
}

/// The entities after the hits of `d`, in order, on every live creature.
pub open spec fn apply_hits(ents: Seq<EntityData>, d: Seq<(usize, i32)>) -> Seq<EntityData>
    decreases d.len(),
{
    if d.len() == 0 {
        ents
    } else {
        let e = apply_hits(ents, d.drop_last());
        let (v, amount) = d.last();
        if v < e.len() && e[v as int].alive && e[v as int].stats.is_some() {
            let st = e[v as int].stats.unwrap();
            e.update(v as int, EntityData { stats: Some(CombatStats { hp: after_hit(st.hp, amount), ..st }), ..e[v as int] })
        } else {
            e
        }
    }
}

/// All damage recorded against `v`.
pub open spec fn damage_total(d: Seq<(usize, i32)>, v: usize) -> int
    decreases d.len(),
{
    if d.len() == 0 {
        0
    } else {
        damage_total(d.drop_last(), v) + if d.last().0 == v { d.last().1 as int } else { 0 }
    }
}

/// Whether `e`, with `total` damage against it, is a floor potion that shatters.
pub open spec fn shatters(e: EntityData, total: int) -> bool {
    e.alive && e.potion && e.pos.is_some() && total >= SHATTER_DAMAGE
}

/// The throw requests that shatter the damaged floor potions among the first
/// `k` entities: each is thrown onto its own tile.
pub open spec fn shatter_upto(ents: Seq<EntityData>, d: Seq<(usize, i32)>, k: nat) -> Seq<WantsToThrowItem>
    decreases k,
{
    if k == 0 {
        Seq::empty()
    } else {
        let i = (k - 1) as int;
        shatter_upto(ents, d, (k - 1) as nat) + if shatters(ents[i], damage_total(d, i as usize)) {
            seq![WantsToThrowItem { item: i as usize, target: ents[i].pos.unwrap() }]
        } else {
            Seq::empty()
        }
    }
}

proof fn lemma_apply_hits_len(ents: Seq<EntityData>, d: Seq<(usize, i32)>)
    ensures
        apply_hits(ents, d).len() == ents.len(),
    decreases d.len(),
{
    if d.len() > 0 {
        lemma_apply_hits_len(ents, d.drop_last());
    }
}

/// The damage system.
pub struct DamageSystem {}

impl DamageSystem {
    /// Subtracts the phase's accumulated damage, once per entry, and clears
    /// it. Returns the throws that shatter floor potions hit hard enough.
    pub fn run(&mut self, world: &mut World) -> (shattered: Vec<WantsToThrowItem>)
        ensures
            final(world)@ == (WorldState {
                entities: apply_hits(old(world)@.entities, old(world)@.damage),
                damage: Seq::empty(),
                ..old(world)@
            }),
            shattered@ == shatter_upto(old(world)@.entities, old(world)@.damage, old(world)@.entities.len() as nat),
    {
        let ghost w0 = world@;
        let n = world.entities.len();
        let mut shattered: Vec<WantsToThrowItem> = Vec::new();
        // potions that shatter, judged on the entities as they were
        let mut i: usize = 0;
        while i < n
            invariant
                i <= n,
                n == w0.entities.len(),
                world@ == w0,
                shattered@ == shatter_upto(w0.entities, w0.damage, i as nat),
            decreases n - i,
        {
            let e = world.entities[i];
            if e.alive && e.potion && e.pos.is_some() {
                let total = total_against(&world.suffering.entries, i);
                if total >= SHATTER_DAMAGE as i128 {
                    shattered.push(WantsToThrowItem { item: i, target: e.pos.unwrap() });
                }
            }
            assert(shatter_upto(w0.entities, w0.damage, (i + 1) as nat) =~= shattered@);
            i = i + 1;
        }
        let mut k: usize = 0;
        while k < world.suffering.entries.len()
            invariant
                k <= w0.damage.len(),
                world.suffering.entries@ == w0.damage,
                world.entities@ == apply_hits(w0.entities, w0.damage.subrange(0, k as int)),
                world.names == old(world).names,
                world.log == old(world).log,
                world.player == old(world).player,
                world.view_pos == old(world).view_pos,
                w0 == old(world)@,
            decreases w0.damage.len() - k,
        {
            let (v, amount) = world.suffering.entries[k];
            proof {
                assert(w0.damage.subrange(0, k + 1).drop_last() =~= w0.damage.subrange(0, k as int));
                lemma_apply_hits_len(w0.entities, w0.damage.subrange(0, k as int));
            }
            if v < world.entities.len() {
                let e = world.entities[v];
                if e.alive && e.stats.is_some() {
                    let st = e.stats.unwrap();
                    let left = st.hp as i64 - amount as i64;
                    let hp = if left < 0 { 0 } else if left > i32::MAX as i64 { i32::MAX } else { left as i32 };
                    world.entities.set(v, EntityData { stats: Some(CombatStats { hp, ..st }), ..e });
                }
            }
            k = k + 1;
        }
        assert(w0.damage.subrange(0, k as int) =~= w0.damage);
        world.suffering.entries = Vec::new();
        assert(world@ =~= (WorldState {
            entities: apply_hits(old(world)@.entities, old(world)@.damage),
            damage: Seq::empty(),
            ..old(world)@
        }));
        shattered
    }
}

/// All damage in `d` recorded against `v`.
pub fn total_against(d: &Vec<(usize, i32)>, v: usize) -> (r: i128)
    ensures
        r == damage_total(d@, v),
{
    let mut total: i128 = 0;
    let mut k: usize = 0;
    while k < d.len()
        invariant
            k <= d@.len(),
            total == damage_total(d@.subrange(0, k as int), v),
            i32::MIN * k <= total <= i32::MAX * k,
        decreases d@.len() - k,
    {
        assert(d@.subrange(0, k + 1).drop_last() =~= d@.subrange(0, k as int));
        if d[k].0 == v {
            total = total + d[k].1 as i128;
        }
        k = k + 1;
    }
    assert(d@.subrange(0, k as int) =~= d@);
    total
}

/// The map once the boss is dead: every final door is open floor.
pub open spec fn doors_opened(tiles: Seq<TileType>) -> Seq<TileType> {
    Seq::new(tiles.len(), |i: int| if tiles[i] == TileType::FinalDoor { TileType::Floor } else { tiles[i] })
}

/// Opens every final door.
pub fn boss_dead(map: &mut DungeonMap)
    ensures
        final(map).tiles@ == doors_opened(old(map).tiles@),
        final(map).width == old(map).width,
        final(map).height == old(map).height,
{
    let mut i: usize = 0;
    while i < map.tiles.len()
        invariant
            i <= map.tiles@.len(),
            map.tiles@.len() == old(map).tiles@.len(),
            map.width == old(map).width,
            map.height == old(map).height,
            forall|j: int| 0 <= j < map.tiles@.len() ==> map.tiles@[j] == if j < i {
                doors_opened(old(map).tiles@)[j]
            } else {
                old(map).tiles@[j]
            },
        decreases map.tiles@.len() - i,
    {
        if map.tiles[i] == TileType::FinalDoor {
            map.tiles.set(i, TileType::Floor);
        }
        i = i + 1;
    }
    assert(map.tiles@ =~= doors_opened(old(map).tiles@));
}

/// A creature whose hit points ran out.
pub open spec fn is_dead(e: EntityData) -> bool {
    e.alive && e.stats.is_some() && e.stats.unwrap().hp < 1
}

/// The log after the first `k` entities are checked for death: a dead
/// creature is announced unless it is the boss, and the player's death is
/// noted unless the log already ends with it.
pub open spec fn death_log(ents: Seq<EntityData>, player: usize, log: Seq<LogEntry>, k: nat) -> Seq<LogEntry>
    decreases k,
{
    if k == 0 {
        log
    } else {
        let i = (k - 1) as int;
        let l = death_log(ents, player, log, (k - 1) as nat);
        if !is_dead(ents[i]) {
            l
        } else if i == player as int {
            if l.len() > 0 && l.last() == LogEntry::PlayerDead { l } else { l.push(LogEntry::PlayerDead) }
        } else if ents[i].boss {
            l
        } else {
            l.push(LogEntry::Dies { who: i as usize })
        }
    }
}

/// Whether a dead creature among the first `k` (the player aside) is the boss.
pub open spec fn boss_among_dead(ents: Seq<EntityData>, player: usize, k: nat) -> bool
    decreases k,
{
    if k == 0 {
        false
    } else {
        let i = (k - 1) as int;
        boss_among_dead(ents, player, (k - 1) as nat) || (is_dead(ents[i]) && i != player as int && ents[i].boss)
    }
}

/// Removes every dead creature but the player, announcing the deaths; the
/// boss's death opens the final doors and is announced on its own.
pub fn clean_up_dead(world: &mut World, map: &mut DungeonMap)
    ensures
        ({
            let ents = old(world)@.entities;
            let player = old(world)@.player;
            let n = ents.len() as nat;
            let boss = boss_among_dead(ents, player, n);
            let log = death_log(ents, player, old(world)@.log, n);
            &&& final(world)@ == (WorldState {
                entities: Seq::new(ents.len(), |i: int|
                    if is_dead(ents[i]) && i != player as int { EntityData { alive: false, ..ents[i] } } else { ents[i] }),
                log: if boss { log.push(LogEntry::BossDefeated) } else { log },
                ..old(world)@
            })
            &&& final(map).tiles@ == if boss { doors_opened(old(map).tiles@) } else { old(map).tiles@ }
            &&& final(map).width == old(map).width
            &&& final(map).height == old(map).height
        }),
{
    let ghost w0 = world@;
    let n = world.entities.len();
    let mut boss = false;
    let mut i: usize = 0;
    while i < n
        invariant
            i <= n,
            n == w0.entities.len(),
            w0 == old(world)@,
            world.player == w0.player,
            world.view_pos == w0.view_pos,
            world.names == old(world).names,
            world.suffering == old(world).suffering,
            world.entities@.len() == n,
            forall|j: int| 0 <= j < n ==> world.entities@[j] == if j < i && is_dead(w0.entities[j]) && j != w0.player as int {
                EntityData { alive: false, ..w0.entities[j] }
            } else {
                w0.entities[j]
            },
            world.log@ == death_log(w0.entities, w0.player, w0.log, i as nat),
            boss == boss_among_dead(w0.entities, w0.player, i as nat),
        decreases n - i,
    {
        let e = world.entities[i];
        let dead = match e.stats {
            Some(st) => e.alive && st.hp < 1,
            None => false,
        };
        if dead {
            if i == world.player {
                let n_log = world.log.len();
                if !(n_log > 0 && world.log[n_log - 1] == LogEntry::PlayerDead) {
                    world.log.push(LogEntry::PlayerDead);
                }
            } else {
                if e.boss {
                    boss = true;
                } else {
                    world.log.push(LogEntry::Dies { who: i });
                }
                world.entities.set(i, EntityData { alive: false, ..e });
            }
        }
        i = i + 1;
    }
    if boss {
        boss_dead(map);
        world.log.push(LogEntry::BossDefeated);
    }
    assert(world.entities@ =~= Seq::new(w0.entities.len(), |i: int|
        if is_dead(w0.entities[i]) && i != w0.player as int { EntityData { alive: false, ..w0.entities[i] } } else { w0.entities[i] }));
    assert(world@ =~= (WorldState {
        entities: world.entities@,
        log: world.log@,
        ..w0
    }));
}

/// The raw blow of a creature: its power, doubled under strength.
pub open spec fn blow(attacker: EntityData) -> int {
    attacker.stats.unwrap().power * (if attacker.effects.strength.is_some() { 2int } else { 1int })
}

/// Melee damage: the blow less the target's defence, never below zero.
pub open spec fn melee_damage(attacker: EntityData, target: EntityData) -> int {
    let d = blow(attacker) - target.stats.unwrap().defence;
    if d < 0 { 0 } else { d }
}

/// Whether both sides of a strike are live creatures with hit points left.
pub open spec fn can_strike(attacker: EntityData, target: EntityData) -> bool {
    attacker.alive && attacker.stats.is_some() && attacker.stats.unwrap().hp > 0
        && target.stats.is_some() && target.stats.unwrap().hp > 0
}

/// A strike: its damage is recorded against the target, or the log notes
/// that it could not hurt.
pub open spec fn melee_spec(w: WorldState, m: WantsToMelee) -> WorldState {
    let a = w.entities[m.attacker as int];
    let t = w.entities[m.target as int];
    if !can_strike(a, t) {
        w
    } else {
        let d = melee_damage(a, t);
        if d == 0 {
            WorldState { log: w.log.push(LogEntry::MeleeCannotHurt { attacker: m.attacker, target: m.target }), ..w }
        } else {
            WorldState {
                log: w.log.push(LogEntry::MeleeHurts { attacker: m.attacker, target: m.target, amount: d as i32 }),
                damage: w.damage.push((m.target, d as i32)),
                ..w
            }
        }
    }
}

/// What a strike needs: real creatures and a damage that fits in an `i32`.
pub open spec fn melee_ok(ents: Seq<EntityData>, m: WantsToMelee) -> bool {
    &&& m.attacker < ents.len()
    &&& m.target < ents.len()
    &&& can_strike(ents[m.attacker as int], ents[m.target as int])
        ==> fits_i32(blow(ents[m.attacker as int]) - ents[m.target as int].stats.unwrap().defence)
}

/// A run of strikes, in order.
pub open spec fn melee_all(w: WorldState, ms: Seq<WantsToMelee>) -> WorldState
    decreases ms.len(),
{
    if ms.len() == 0 { w } else { melee_spec(melee_all(w, ms.drop_last()), ms.last()) }
}

proof fn lemma_melee_all_entities(w: WorldState, ms: Seq<WantsToMelee>)
    ensures
        melee_all(w, ms).entities == w.entities,
    decreases ms.len(),
{
    if ms.len() > 0 {
        lemma_melee_all_entities(w, ms.drop_last());
    }
}

impl World {
    /// One melee strike.
    pub fn melee(&mut self, m: WantsToMelee)
        requires
            melee_ok(old(self).entities@, m),
        ensures
            final(self)@ == melee_spec(old(self)@, m),
    {
        let a = self.entities[m.attacker];
        let t = self.entities[m.target];
        let able = match (a.stats, t.stats) {
            (Some(sa), Some(st)) => a.alive && sa.hp > 0 && st.hp > 0,
            _ => false,
        };
        if !able {
            return;
        }
        let sa = a.stats.unwrap();
        let st = t.stats.unwrap();
        let modifier: i64 = if a.effects.strength.is_some() { 2 } else { 1 };
        let raw = sa.power as i64 * modifier - st.defence as i64;
        let d: i32 = if raw < 0 { 0 } else { raw as i32 };
        if d == 0 {
            self.log.push(LogEntry::MeleeCannotHurt { attacker: m.attacker, target: m.target });
        } else {
            self.log.push(LogEntry::MeleeHurts { attacker: m.attacker, target: m.target, amount: d });
            self.suffering.new_damage(m.target, d);
        }
        assert(self@ =~= melee_spec(old(self)@, m));
    }
}

/// The melee system.
pub struct MeleeCombatSystem {}

impl MeleeCombatSystem {
    /// Carries out every strike request in order.
    pub fn run(&mut self, world: &mut World, intents: &Vec<WantsToMelee>)
        requires
            forall|i: int| 0 <= i < intents@.len() ==> melee_ok(old(world).entities@, #[trigger] intents@[i]),
        ensures
            final(world)@ == melee_all(old(world)@, intents@),
    {
        let mut i: usize = 0;
        while i < intents.len()
            invariant
                i <= intents@.len(),
                forall|q: int| 0 <= q < intents@.len() ==> melee_ok(old(world).entities@, #[trigger] intents@[q]),
                world@ == melee_all(old(world)@, intents@.subrange(0, i as int)),
            decreases intents@.len() - i,
        {
            proof {
                lemma_melee_all_entities(old(world)@, intents@.subrange(0, i as int));
                assert(intents@.subrange(0, i + 1).drop_last() =~= intents@.subrange(0, i as int));
                assert(melee_ok(old(world).entities@, intents@[i as int]));
            }
            world.melee(intents[i]);
            i = i + 1;
        }
        assert(intents@.subrange(0, i as int) =~= intents@);
    }
}

} // verus!
