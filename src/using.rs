//! Using items: resolving the target set and applying the item's effects,
//! some at once and some staged for the next phase.

use vstd::prelude::*;
use crate::components::{CombatStats, InflictsDamage, Position, WantsToUseItem};
use crate::effects::{fits_i32, EffectSet};
use crate::map::DungeonMap;
use crate::processor::{lands_well, roll_destination, teleport_map};
use crate::throwing::{overlay, overlay_exec};
use crate::world::{lemma_occupants, lemma_push_contains, occupants_of, EntityData, LogEntry, World, WorldState};

verus! {

/// How much more an item heals when drunk than when its effect is staged.
pub const DRINK_HEAL_FACTOR: i32 = 3;

/// The creatures on the interior tiles among `tiles`, tile by tile.
pub open spec fn area_occupants(ents: Seq<EntityData>, map: DungeonMap, tiles: Seq<Position>) -> Seq<usize>
    decreases tiles.len(),
{
    if tiles.len() == 0 {
        Seq::empty()
    } else {
        let t = tiles.last();
        area_occupants(ents, map, tiles.drop_last()) + if map.interior(t.x as int, t.y as int) {
            occupants_of(ents, t)
        } else {
            Seq::empty()
        }
    }
}

/// Whom a use affects: the user alone when no tile is aimed at; else the
/// creatures on the aimed tile, or, for an item with an area of effect, on
/// the interior tiles of its blast (`tiles`, the field of view within the
/// blast radius round the aimed tile).
pub open spec fn use_targets(w: WorldState, map: DungeonMap, user: usize, m: WantsToUseItem, tiles: Seq<Position>) -> Seq<usize> {
    match m.target {
        None => seq![user],
        Some(t) => if w.entities[m.item as int].aoe.is_some() {
            area_occupants(w.entities, map, tiles)
        } else {
            occupants_of(w.entities, t)
        },
    }
}

/// The effects `fx` staged on every target (only on those with stats when
/// `needs_stats`).
pub open spec fn stage_spec(w: WorldState, ts: Seq<usize>, fx: EffectSet, needs_stats: bool) -> WorldState {
    WorldState {
        entities: Seq::new(w.entities.len(), |j: int|
            if ts.contains(j as usize) && (!needs_stats || w.entities[j].stats.is_some()) {
                EntityData { effects: overlay(w.entities[j].effects, fx), ..w.entities[j] }
            } else {
                w.entities[j]
            }),
        ..w
    }
}

impl World {
    /// Stages `fx` on every target of `ts` (with stats, when `needs_stats`).
    pub fn stage_on(&mut self, ts: &Vec<usize>, fx: &EffectSet, needs_stats: bool)
        requires
            forall|i: int| 0 <= i < ts@.len() ==> ts@[i] < old(self).entities@.len(),
        ensures
            final(self)@ == stage_spec(old(self)@, ts@, *fx, needs_stats),
    {
        let n = self.entities.len();
        let ghost orig = self.entities@;
        let mut k: usize = 0;
        while k < ts.len()
            invariant
                k <= ts@.len(),
                orig == old(self).entities@,
                orig.len() == n,
                self.entities@.len() == n,
                forall|i: int| 0 <= i < ts@.len() ==> ts@[i] < n,
                forall|j: int| 0 <= j < n ==> self.entities@[j] == if ts@.subrange(0, k as int).contains(j as usize)
                    && (!needs_stats || orig[j].stats.is_some()) {
                    EntityData { effects: overlay(orig[j].effects, *fx), ..orig[j] }
                } else {
                    orig[j]
                },
                self.names == old(self).names,
                self.suffering == old(self).suffering,
                self.log == old(self).log,
                self.player == old(self).player,
                self.view_pos == old(self).view_pos,
            decreases ts@.len() - k,
        {
            let j = ts[k];
            let e = self.entities[j];
            proof {
                assert(ts@.subrange(0, k + 1) =~= ts@.subrange(0, k as int).push(j));
                assert forall|i: int| 0 <= i < n implies
                    (#[trigger] ts@.subrange(0, k + 1).contains(i as usize) <==> (ts@.subrange(0, k as int).contains(i as usize) || i == j as int)) by {
                    lemma_push_contains(ts@.subrange(0, k as int), j, i as usize);
                }
            }
            if !needs_stats || e.stats.is_some() {
                proof {
                    if ts@.subrange(0, k as int).contains(j) {
                        assert(overlay(overlay(orig[j as int].effects, *fx), *fx) == overlay(orig[j as int].effects, *fx));
                    }
                }
                self.entities.set(j, EntityData { effects: overlay_exec(&e.effects, fx), ..e });
            }
            k = k + 1;
        }
        assert(ts@.subrange(0, k as int) =~= ts@);
        assert(self@ =~= stage_spec(old(self)@, ts@, *fx, needs_stats));
    }
}

/// Hit points after drinking a heal of `gain`: raised, capped at the
/// maximum, and kept within `i32`.
pub open spec fn healed_hp(st: CombatStats, gain: int) -> i32 {
    let raised = st.hp + gain;
    let capped = if raised < st.max_hp { raised } else { st.max_hp as int };
    (if capped < i32::MIN { i32::MIN as int } else { capped }) as i32
}

/// Each target with stats healed by `gain`, in turn.
pub open spec fn heal_targets(ents: Seq<EntityData>, ts: Seq<usize>, gain: int) -> Seq<EntityData>
    decreases ts.len(),
{
    if ts.len() == 0 {
        ents
    } else {
        let e = heal_targets(ents, ts.drop_last(), gain);
        let j = ts.last() as int;
        if j < e.len() && e[j].stats.is_some() {
            let st = e[j].stats.unwrap();
            e.update(j, EntityData { stats: Some(CombatStats { hp: healed_hp(st, gain), ..st }), ..e[j] })
        } else {
            e
        }
    }
}

/// One log entry per target with stats.
pub open spec fn heal_log(ents: Seq<EntityData>, ts: Seq<usize>, item: usize, gain: i32) -> Seq<LogEntry>
    decreases ts.len(),
{
    if ts.len() == 0 {
        Seq::empty()
    } else {
        heal_log(ents, ts.drop_last(), item, gain) + if ts.last() < ents.len() && ents[ts.last() as int].stats.is_some() {
            seq![LogEntry::UsedHealing { item, amount: gain }]
        } else {
            Seq::empty()
        }
    }
}

/// One entry per target with stats that is the player.
pub open spec fn player_log(ents: Seq<EntityData>, ts: Seq<usize>, player: usize, entry: LogEntry) -> Seq<LogEntry>
    decreases ts.len(),
{
    if ts.len() == 0 {
        Seq::empty()
    } else {
        player_log(ents, ts.drop_last(), player, entry) + if ts.last() == player && ents[ts.last() as int].stats.is_some() {
            seq![entry]
        } else {
            Seq::empty()
        }
    }
}

proof fn lemma_heal_targets_frame(ents: Seq<EntityData>, ts: Seq<usize>, gain: int)
    requires
        forall|i: int| 0 <= i < ts.len() ==> ts[i] < ents.len(),
    ensures
        heal_targets(ents, ts, gain).len() == ents.len(),
        forall|j: int| 0 <= j < ents.len() ==> (#[trigger] heal_targets(ents, ts, gain)[j]).stats.is_some() == ents[j].stats.is_some(),
    decreases ts.len(),
{
    if ts.len() > 0 {
        lemma_heal_targets_frame(ents, ts.drop_last(), gain);
    }
}

impl World {
    /// The creatures on the interior tiles among `tiles`.
    pub fn area_targets(&self, map: &DungeonMap, tiles: &Vec<Position>) -> (r: Vec<usize>)
        ensures
            r@ == area_occupants(self.entities@, *map, tiles@),
            forall|i: int| 0 <= i < r@.len() ==> r@[i] < self.entities@.len(),
    {
        let mut r: Vec<usize> = Vec::new();
        let n = self.entities.len();
        let mut i: usize = 0;
        while i < tiles.len()
            invariant
                i <= tiles@.len(),
                n == self.entities@.len(),
                r@ == area_occupants(self.entities@, *map, tiles@.subrange(0, i as int)),
                forall|q: int| 0 <= q < r@.len() ==> r@[q] < n,
            decreases tiles@.len() - i,
        {
            let t = tiles[i];
            assert(tiles@.subrange(0, i + 1).drop_last() =~= tiles@.subrange(0, i as int));
            if 0 < t.x && (t.x as i64) < map.width as i64 - 1 && 0 < t.y && (t.y as i64) < map.height as i64 - 1 {
                let occ = self.occupants(t);
                proof {
                    lemma_occupants(self.entities@, t);
                }
                let ghost before = r@;
                let mut k: usize = 0;
                while k < occ.len()
                    invariant
                        k <= occ@.len(),
                        n == self.entities@.len(),
                        occ@ == occupants_of(self.entities@, t),
                        forall|q: int| 0 <= q < occ@.len() ==> occ@[q] < n,
                        r@ == before + occ@.subrange(0, k as int),
                        forall|q: int| 0 <= q < r@.len() ==> r@[q] < n,
                    decreases occ@.len() - k,
                {
                    r.push(occ[k]);
                    assert(occ@.subrange(0, k + 1) =~= occ@.subrange(0, k as int).push(occ@[k as int]));
                    k = k + 1;
                }
                assert(occ@.subrange(0, k as int) =~= occ@);
            } else {
                assert(r@ =~= r@ + Seq::<usize>::empty());
            }
            i = i + 1;
        }
        assert(tiles@.subrange(0, i as int) =~= tiles@);
        r
    }

    /// Whom using `m.item` affects; `tiles` is the blast area of an item
    /// with an area of effect.
    pub fn use_targets(&self, map: &DungeonMap, user: usize, m: WantsToUseItem, tiles: &Vec<Position>) -> (r: Vec<usize>)
        requires
            m.item < self.entities@.len(),
            user < self.entities@.len(),
        ensures
            r@ == use_targets(self@, *map, user, m, tiles@),
            forall|i: int| 0 <= i < r@.len() ==> r@[i] < self.entities@.len(),
    {
        match m.target {
            None => {
                let mut r = Vec::new();
                r.push(user);
                assert(r@ =~= seq![user]);
                r
            },
            Some(t) => {
                if self.entities[m.item].aoe.is_some() {
                    self.area_targets(map, tiles)
                } else {
                    let n = self.entities.len();
                    proof {
                        lemma_occupants(self.entities@, t);
                    }
                    self.occupants(t)
                }
            },
        }
    }

    /// Drinking a heal: each target with stats gains `gain` hit points at
    /// once, logged when `logged`.
    pub fn heal_now(&mut self, ts: &Vec<usize>, item: usize, gain: i32, logged: bool)
        requires
            forall|i: int| 0 <= i < ts@.len() ==> ts@[i] < old(self).entities@.len(),
        ensures
            final(self)@ == (WorldState {
                entities: heal_targets(old(self)@.entities, ts@, gain as int),
                log: if logged { old(self)@.log + heal_log(old(self)@.entities, ts@, item, gain) } else { old(self)@.log },
                ..old(self)@
            }),
    {
        let ghost orig = self.entities@;
        let ghost log0 = self.log@;
        let mut k: usize = 0;
        while k < ts.len()
            invariant
                k <= ts@.len(),
                orig == old(self).entities@,
                log0 == old(self).log@,
                forall|i: int| 0 <= i < ts@.len() ==> ts@[i] < orig.len(),
                self.entities@ == heal_targets(orig, ts@.subrange(0, k as int), gain as int),
                self.log@ == if logged { log0 + heal_log(orig, ts@.subrange(0, k as int), item, gain) } else { log0 },
                self.names == old(self).names,
                self.suffering == old(self).suffering,
                self.player == old(self).player,
                self.view_pos == old(self).view_pos,
            decreases ts@.len() - k,
        {
            let j = ts[k];
            proof {
                assert(ts@.subrange(0, k + 1).drop_last() =~= ts@.subrange(0, k as int));
                lemma_heal_targets_frame(orig, ts@.subrange(0, k as int), gain as int);
            }
            let e = self.entities[j];
            match e.stats {
                Some(st) => {
                    let raised = st.hp as i64 + gain as i64;
                    let capped = if raised < st.max_hp as i64 { raised } else { st.max_hp as i64 };
                    let hp = if capped < i32::MIN as i64 { i32::MIN } else { capped as i32 };
                    self.entities.set(j, EntityData { stats: Some(CombatStats { hp, ..st }), ..e });
                    if logged {
                        self.log.push(LogEntry::UsedHealing { item, amount: gain });
                    }
                },
                None => {},
            }
            proof {
                if logged {
                    assert(self.log@ =~= log0 + heal_log(orig, ts@.subrange(0, k + 1), item, gain));
                }
            }
            k = k + 1;
        }
        assert(ts@.subrange(0, k as int) =~= ts@);
        assert(self@ =~= (WorldState {
            entities: heal_targets(old(self)@.entities, ts@, gain as int),
            log: if logged { old(self)@.log + heal_log(old(self)@.entities, ts@, item, gain) } else { old(self)@.log },
            ..old(self)@
        }));
    }

    /// Appends `entries` to the log.
    pub fn log_all(&mut self, entries: Vec<LogEntry>)
        ensures
            final(self)@ == (WorldState { log: old(self)@.log + entries@, ..old(self)@ }),
    {
        let mut k: usize = 0;
        while k < entries.len()
            invariant
                k <= entries@.len(),
                self@ == (WorldState { log: old(self)@.log + entries@.subrange(0, k as int), ..old(self)@ }),
            decreases entries@.len() - k,
        {
            self.log.push(entries[k]);
            assert(entries@.subrange(0, k + 1) =~= entries@.subrange(0, k as int).push(entries@[k as int]));
            assert(self@ =~= (WorldState { log: old(self)@.log + entries@.subrange(0, k + 1), ..old(self)@ }));
            k = k + 1;
        }
        assert(entries@.subrange(0, k as int) =~= entries@);
    }

    /// Records `amount` of damage against every target.
    pub fn damage_all(&mut self, ts: &Vec<usize>, amount: i32)
        ensures
            final(self)@ == (WorldState {
                damage: old(self)@.damage + ts@.map_values(|t: usize| (t, amount)),
                ..old(self)@
            }),
    {
        let mut k: usize = 0;
        while k < ts.len()
            invariant
                k <= ts@.len(),
                self@ == (WorldState {
                    damage: old(self)@.damage + ts@.subrange(0, k as int).map_values(|t: usize| (t, amount)),
                    ..old(self)@
                }),
            decreases ts@.len() - k,
        {
            self.suffering.new_damage(ts[k], amount);
            assert(ts@.subrange(0, k + 1).map_values(|t: usize| (t, amount))
                =~= ts@.subrange(0, k as int).map_values(|t: usize| (t, amount)).push((ts@[k as int], amount)));
            assert(self@ =~= (WorldState {
                damage: old(self)@.damage + ts@.subrange(0, k + 1).map_values(|t: usize| (t, amount)),
                ..old(self)@
            }));
            k = k + 1;
        }
        assert(ts@.subrange(0, k as int) =~= ts@);
    }
}

/// One telefrag entry per creature with stats in `occ`.
pub open spec fn telefrag_log(ents: Seq<EntityData>, occ: Seq<usize>, causer: usize) -> Seq<LogEntry>
    decreases occ.len(),
{
    if occ.len() == 0 {
        Seq::empty()
    } else {
        telefrag_log(ents, occ.drop_last(), causer) + if ents[occ.last() as int].stats.is_some() {
            seq![LogEntry::Telefragged { causer, victim: occ.last() }]
        } else {
            Seq::empty()
        }
    }
}

pub open spec fn killed(e: EntityData) -> EntityData {
    EntityData { stats: Some(CombatStats { hp: 0, ..e.stats.unwrap() }), ..e }
}

/// A drunk teleport: the user moves to `dest` at once (the point of view
/// follows the player). Landing in a wall kills it; otherwise every creature
/// already on `dest` is killed.
pub open spec fn use_teleport_spec(w: WorldState, map: DungeonMap, user: int, dest: Position) -> WorldState {
    let d = w.entities[user];
    let occ = occupants_of(w.entities, dest);
    let placed = d.pos.is_some();
    let moved = EntityData { pos: if placed { Some(dest) } else { None }, ..d };
    let view_pos = if placed && user == w.player { dest } else { w.view_pos };
    if map.wall_at(dest.x as int, dest.y as int) {
        if moved.stats.is_some() {
            WorldState {
                entities: w.entities.update(user, killed(moved)),
                log: w.log.push(LogEntry::TeleportedIntoWall),
                view_pos,
                ..w
            }
        } else {
            WorldState { entities: w.entities.update(user, moved), view_pos, ..w }
        }
    } else {
        let ents = w.entities.update(user, moved);
        WorldState {
            entities: Seq::new(ents.len(), |j: int|
                if occ.contains(j as usize) && ents[j].stats.is_some() { killed(ents[j]) } else { ents[j] }),
            log: w.log + telefrag_log(ents, occ, user as usize),
            view_pos,
            ..w
        }
    }
}

impl World {
    /// Moves `user` to `dest` as a drunk teleport does.
    pub fn teleport_user(&mut self, map: &DungeonMap, user: usize, dest: Position)
        requires
            map.wf(),
            map.in_bounds(dest.x as int, dest.y as int),
            user < old(self).entities@.len(),
        ensures
            final(self)@ == use_teleport_spec(old(self)@, *map, user as int, dest),
    {
        let n = self.entities.len();
        let d = self.entities[user];
        let occ = self.occupants(dest);
        proof {
            lemma_occupants(self.entities@, dest);
        }
        let placed = d.pos.is_some();
        let moved = EntityData { pos: if placed { Some(dest) } else { None }, ..d };
        if placed && user == self.player {
            self.view_pos = dest;
        }
        if map.is_wall(dest.x, dest.y) {
            match moved.stats {
                Some(st) => {
                    self.entities.set(user, EntityData { stats: Some(CombatStats { hp: 0, ..st }), ..moved });
                    self.log.push(LogEntry::TeleportedIntoWall);
                },
                None => {
                    self.entities.set(user, moved);
                },
            }
            assert(self@ =~= use_teleport_spec(old(self)@, *map, user as int, dest));
            return;
        }
        self.entities.set(user, moved);
        let ghost ents = self.entities@;
        let ghost log0 = self.log@;
        let mut k: usize = 0;
        while k < occ.len()
            invariant
                k <= occ@.len(),
                ents.len() == n,
                self.entities@.len() == n,
                forall|i: int| 0 <= i < occ@.len() ==> occ@[i] < n,
                forall|j: int| 0 <= j < n ==> self.entities@[j] == if occ@.subrange(0, k as int).contains(j as usize)
                    && ents[j].stats.is_some() {
                    killed(ents[j])
                } else {
                    ents[j]
                },
                self.log@ == log0 + telefrag_log(ents, occ@.subrange(0, k as int), user),
                self.names == old(self).names,
                self.suffering == old(self).suffering,
                self.player == old(self).player,
                self.view_pos == (if placed && user == old(self).player { dest } else { old(self).view_pos }),
            decreases occ@.len() - k,
        {
            let j = occ[k];
            let e = self.entities[j];
            proof {
                assert(occ@.subrange(0, k + 1) =~= occ@.subrange(0, k as int).push(j));
                assert(occ@.subrange(0, k + 1).drop_last() =~= occ@.subrange(0, k as int));
                assert forall|i: int| 0 <= i < n implies
                    (#[trigger] occ@.subrange(0, k + 1).contains(i as usize) <==> (occ@.subrange(0, k as int).contains(i as usize) || i == j as int)) by {
                    lemma_push_contains(occ@.subrange(0, k as int), j, i as usize);
                }
            }
            match e.stats {
                Some(st) => {
                    self.entities.set(j, EntityData { stats: Some(CombatStats { hp: 0, ..st }), ..e });
                    self.log.push(LogEntry::Telefragged { causer: user, victim: j });
                },
                None => {},
            }
            proof {
                assert(self.log@ =~= log0 + telefrag_log(ents, occ@.subrange(0, k + 1), user));
            }
            k = k + 1;
        }
        assert(occ@.subrange(0, k as int) =~= occ@);
        assert(self@ =~= use_teleport_spec(old(self)@, *map, user as int, dest));
    }
}

pub open spec fn damage_entries(ts: Seq<usize>, item: usize, amount: i32) -> Seq<LogEntry> {
    ts.map_values(|t: usize| LogEntry::UsedDamage { item, target: t, amount })
}

pub open spec fn confusion_entries(ts: Seq<usize>, item: usize) -> Seq<LogEntry> {
    ts.map_values(|t: usize| LogEntry::UsedConfusion { item, target: t })
}

fn damage_entries_exec(ts: &Vec<usize>, item: usize, amount: i32) -> (r: Vec<LogEntry>)
    ensures
        r@ == damage_entries(ts@, item, amount),
{
    let mut r: Vec<LogEntry> = Vec::new();
    let mut k: usize = 0;
    while k < ts.len()
        invariant
            k <= ts@.len(),
            r@ == damage_entries(ts@.subrange(0, k as int), item, amount),
        decreases ts@.len() - k,
    {
        r.push(LogEntry::UsedDamage { item, target: ts[k], amount });
        assert(damage_entries(ts@.subrange(0, k + 1), item, amount)
            =~= damage_entries(ts@.subrange(0, k as int), item, amount).push(LogEntry::UsedDamage { item, target: ts@[k as int], amount }));
        k = k + 1;
    }
    assert(ts@.subrange(0, k as int) =~= ts@);
    r
}

fn confusion_entries_exec(ts: &Vec<usize>, item: usize) -> (r: Vec<LogEntry>)
    ensures
        r@ == confusion_entries(ts@, item),
{
    let mut r: Vec<LogEntry> = Vec::new();
    let mut k: usize = 0;
    while k < ts.len()
        invariant
            k <= ts@.len(),
            r@ == confusion_entries(ts@.subrange(0, k as int), item),
        decreases ts@.len() - k,
    {
        r.push(LogEntry::UsedConfusion { item, target: ts[k] });
        assert(confusion_entries(ts@.subrange(0, k + 1), item)
            =~= confusion_entries(ts@.subrange(0, k as int), item).push(LogEntry::UsedConfusion { item, target: ts@[k as int] }));
        k = k + 1;
    }
    assert(ts@.subrange(0, k as int) =~= ts@);
    r
}

impl World {
    fn player_entries(&self, ts: &Vec<usize>, entry: LogEntry) -> (r: Vec<LogEntry>)
        requires
            forall|i: int| 0 <= i < ts@.len() ==> ts@[i] < self.entities@.len(),
        ensures
            r@ == player_log(self.entities@, ts@, self.player, entry),
    {
        let mut r: Vec<LogEntry> = Vec::new();
        let mut k: usize = 0;
        while k < ts.len()
            invariant
                k <= ts@.len(),
                forall|i: int| 0 <= i < ts@.len() ==> ts@[i] < self.entities@.len(),
                r@ == player_log(self.entities@, ts@.subrange(0, k as int), self.player, entry),
            decreases ts@.len() - k,
        {
            assert(ts@.subrange(0, k + 1).drop_last() =~= ts@.subrange(0, k as int));
            if ts[k] == self.player && self.entities[ts[k]].stats.is_some() {
                r.push(entry);
            }
            assert(r@ =~= player_log(self.entities@, ts@.subrange(0, k + 1), self.player, entry));
            k = k + 1;
        }
        assert(ts@.subrange(0, k as int) =~= ts@);
        r
    }
}

/// Only the given kinds of `e`.
pub open spec fn part_of(e: EffectSet, harm: bool, linger: bool, explosion: bool, confusion: bool, invulnerability: bool, strength: bool) -> EffectSet {
    EffectSet {
        heal: None,
        teleport: None,
        confusion: if confusion { e.confusion } else { None },
        harm: if harm { e.harm } else { None },
        linger: if linger { e.linger } else { None },
        explosion: if explosion { e.explosion } else { None },
        invulnerability: if invulnerability { e.invulnerability } else { None },
        strength: if strength { e.strength } else { None },
    }
}

/// Drinking: healing by `DRINK_HEAL_FACTOR` times the amount, at once.
pub open spec fn use_heal_step(w: WorldState, ts: Seq<usize>, item: usize, fx: EffectSet, logged: bool) -> WorldState {
    match fx.heal {
        Some(h) => WorldState {
            entities: heal_targets(w.entities, ts, DRINK_HEAL_FACTOR * h.heal_amount),
            log: if logged { w.log + heal_log(w.entities, ts, item, (DRINK_HEAL_FACTOR * h.heal_amount) as i32) } else { w.log },
            ..w
        },
        None => w,
    }
}

/// The item's plain damage, recorded against every target.
pub open spec fn use_damage_step(w: WorldState, ts: Seq<usize>, item: usize, inflicts: Option<InflictsDamage>, logged: bool) -> WorldState {
    match inflicts {
        Some(d) => WorldState {
            damage: w.damage + ts.map_values(|t: usize| (t, d.damage)),
            log: if logged { w.log + damage_entries(ts, item, d.damage) } else { w.log },
            ..w
        },
        None => w,
    }
}

/// Confusion, staged on every target.
pub open spec fn use_confusion_step(w: WorldState, ts: Seq<usize>, item: usize, fx: EffectSet, logged: bool) -> WorldState {
    match fx.confusion {
        Some(c) => stage_spec(
            WorldState { log: if logged { w.log + confusion_entries(ts, item) } else { w.log }, ..w },
            ts, part_of(fx, false, false, false, true, false, false), false),
        None => w,
    }
}

/// Invulnerability (`invulnerable`) or strength, staged on every target with
/// stats, and noted when the player gets it.
pub open spec fn use_buff_step(w: WorldState, ts: Seq<usize>, fx: EffectSet, invulnerable: bool) -> WorldState {
    let present = if invulnerable { fx.invulnerability.is_some() } else { fx.strength.is_some() };
    if present {
        let st = stage_spec(w, ts, part_of(fx, false, false, false, false, invulnerable, !invulnerable), true);
        let entry = if invulnerable { LogEntry::Invulnerable } else { LogEntry::Stronger };
        WorldState { log: st.log + player_log(w.entities, ts, w.player, entry), ..st }
    } else {
        w
    }
}

/// Instant harm on use: its damage is recorded against every target at once.
pub open spec fn use_harm_step(w: WorldState, ts: Seq<usize>, fx: EffectSet) -> WorldState {
    match fx.harm {
        Some(h) => WorldState { damage: w.damage + ts.map_values(|t: usize| (t, h.dmg)), ..w },
        None => w,
    }
}

/// A use of `m.item` by `user`, with a teleport landing on `dest`: instant
/// harm goes to the damage accumulator at once; lingering and explosions
/// are staged on the targets; healing
/// (`DRINK_HEAL_FACTOR` times the amount) and the item's plain damage apply
/// at once; confusion is staged; a teleport moves the user at once;
/// invulnerability and strength are staged on targets with stats; a
/// consumable is used up.
#[verifier::opaque]
pub open spec fn use_spec(w: WorldState, map: DungeonMap, user: usize, m: WantsToUseItem, tiles: Seq<Position>, dest: Position) -> WorldState {
    let ts = use_targets(w, map, user, m, tiles);
    let item = w.entities[m.item as int];
    let logged = user == w.player;
    let s0 = use_harm_step(w, ts, item.effects);
    let s1 = stage_spec(s0, ts, part_of(item.effects, false, true, true, false, false, false), false);
    let s2 = use_heal_step(s1, ts, m.item, item.effects, logged);
    let s3 = use_damage_step(s2, ts, m.item, item.inflicts, logged);
    let s4 = use_confusion_step(s3, ts, m.item, item.effects, logged);
    let s5 = if item.effects.teleport.is_some() { use_teleport_spec(s4, map, user as int, dest) } else { s4 };
    let s6 = use_buff_step(s5, ts, item.effects, true);
    let s7 = use_buff_step(s6, ts, item.effects, false);
    if item.consumable {
        WorldState { entities: s7.entities.update(m.item as int, EntityData { alive: false, ..s7.entities[m.item as int] }), ..s7 }
    } else {
        s7
    }
}

/// What a use needs: real user and item, a drinkable heal amount, and, for
/// an item that teleports, a map a teleport can be drawn on.
pub open spec fn use_ok(w: WorldState, map: DungeonMap, user: usize, m: WantsToUseItem) -> bool {
    &&& user < w.entities.len()
    &&& m.item < w.entities.len()
    &&& w.player < w.entities.len()
    &&& w.entities[m.item as int].effects.teleport.is_some() ==> teleport_map(map)
    &&& w.entities[m.item as int].effects.heal.is_some()
        ==> fits_i32(DRINK_HEAL_FACTOR * w.entities[m.item as int].effects.heal.unwrap().heal_amount)
}

impl World {
    fn use_heal(&mut self, ts: &Vec<usize>, item: usize, fx: &EffectSet, logged: bool)
        requires
            forall|i: int| 0 <= i < ts@.len() ==> ts@[i] < old(self).entities@.len(),
            fx.heal.is_some() ==> fits_i32(DRINK_HEAL_FACTOR * fx.heal.unwrap().heal_amount),
        ensures
            final(self)@ == use_heal_step(old(self)@, ts@, item, *fx, logged),
            final(self).entities@.len() == old(self).entities@.len(),
    {
        match fx.heal {
            Some(h) => {
                self.heal_now(ts, item, DRINK_HEAL_FACTOR * h.heal_amount, logged);
                proof { lemma_heal_targets_frame(old(self).entities@, ts@, DRINK_HEAL_FACTOR * h.heal_amount); }
            },
            None => {},
        }
    }

    fn use_damage(&mut self, ts: &Vec<usize>, item: usize, inflicts: Option<InflictsDamage>, logged: bool)
        ensures
            final(self)@ == use_damage_step(old(self)@, ts@, item, inflicts, logged),
    {
        match inflicts {
            Some(d) => {
                self.damage_all(ts, d.damage);
                if logged {
                    self.log_all(damage_entries_exec(ts, item, d.damage));
                }
            },
            None => {},
        }
    }

    fn use_confusion(&mut self, ts: &Vec<usize>, item: usize, fx: &EffectSet, logged: bool)
        requires
            forall|i: int| 0 <= i < ts@.len() ==> ts@[i] < old(self).entities@.len(),
        ensures
            final(self)@ == use_confusion_step(old(self)@, ts@, item, *fx, logged),
            final(self).entities@.len() == old(self).entities@.len(),
    {
        match fx.confusion {
            Some(c) => {
                if logged {
                    self.log_all(confusion_entries_exec(ts, item));
                }
                let only = EffectSet { confusion: Some(c), ..EffectSet::none() };
                assert(only == part_of(*fx, false, false, false, true, false, false));
                self.stage_on(ts, &only, false);
            },
            None => {},
        }
    }

    fn use_buff(&mut self, ts: &Vec<usize>, fx: &EffectSet, invulnerable: bool)
        requires
            forall|i: int| 0 <= i < ts@.len() ==> ts@[i] < old(self).entities@.len(),
        ensures
            final(self)@ == use_buff_step(old(self)@, ts@, *fx, invulnerable),
            final(self).entities@.len() == old(self).entities@.len(),
    {
        let present = if invulnerable { fx.invulnerability.is_some() } else { fx.strength.is_some() };
        if present {
            let entry = if invulnerable { LogEntry::Invulnerable } else { LogEntry::Stronger };
            let entries = self.player_entries(ts, entry);
            let mut only = EffectSet::none();
            if invulnerable {
                only.invulnerability = fx.invulnerability;
            } else {
                only.strength = fx.strength;
            }
            assert(only == part_of(*fx, false, false, false, false, invulnerable, !invulnerable));
            self.stage_on(ts, &only, true);
            self.log_all(entries);
        }
    }

    /// `user` uses `m.item`. `tiles` is the blast area of an item with an
    /// area of effect. Returns where a teleport took the user, if the item
    /// teleports.
    #[verifier::spinoff_prover]
    pub fn use_item(
        &mut self,
        map: &DungeonMap,
        user: usize,
        m: WantsToUseItem,
        tiles: &Vec<Position>,
        rng: &mut rltk::RandomNumberGenerator,
    ) -> (r: Option<Position>)
        requires
            use_ok(old(self)@, *map, user, m),
        ensures
            r.is_some() == old(self).entities@[m.item as int].effects.teleport.is_some(),
            r.is_some() ==> lands_well(*map, old(self).entities@[m.item as int].effects.teleport.unwrap().safe, r.unwrap()),
            final(self)@ == use_spec(old(self)@, *map, user, m, tiles@, match r { Some(d) => d, None => old(self).view_pos }),
    {
        let ts = self.use_targets(map, user, m, tiles);
        let item = self.entities[m.item];
        let logged = user == self.player;
        let fx = item.effects;
        match fx.harm {
            Some(h) => self.damage_all(&ts, h.dmg),
            None => {},
        }
        let lasting = EffectSet { heal: None, teleport: None, confusion: None, harm: None, invulnerability: None, strength: None, ..fx };
        assert(lasting == part_of(fx, false, true, true, false, false, false));
        self.stage_on(&ts, &lasting, false);
        self.use_heal(&ts, m.item, &fx, logged);
        self.use_damage(&ts, m.item, item.inflicts, logged);
        self.use_confusion(&ts, m.item, &fx, logged);
        let r = match fx.teleport {
            Some(t) => {
                let dest = roll_destination(map, t.safe, rng);
                self.teleport_user(map, user, dest);
                Some(dest)
            },
            None => None,
        };
        self.use_buff(&ts, &fx, true);
        self.use_buff(&ts, &fx, false);
        if item.consumable {
            let it = self.entities[m.item];
            self.entities.set(m.item, EntityData { alive: false, ..it });
        }
        proof {
            reveal(use_spec);
        }
        r
    }
}

/// What a use keeps of every entity: the entity count, the player, and what
/// each entity heals and whether and how it teleports.
pub open spec fn keeps_frame(a: WorldState, b: WorldState) -> bool {
    &&& b.entities.len() == a.entities.len()
    &&& b.player == a.player
    &&& forall|j: int| 0 <= j < a.entities.len() ==> (#[trigger] b.entities[j]).effects.heal == a.entities[j].effects.heal
        && b.entities[j].effects.teleport == a.entities[j].effects.teleport
}

proof fn lemma_heal_targets_keeps_effects(ents: Seq<EntityData>, ts: Seq<usize>, gain: int)
    ensures
        heal_targets(ents, ts, gain).len() == ents.len(),
        forall|j: int| 0 <= j < ents.len() ==> (#[trigger] heal_targets(ents, ts, gain)[j]).effects == ents[j].effects,
    decreases ts.len(),
{
    if ts.len() > 0 {
        lemma_heal_targets_keeps_effects(ents, ts.drop_last(), gain);
    }
}

proof fn lemma_stage_keeps_heal(w: WorldState, ts: Seq<usize>, fx: EffectSet, needs_stats: bool)
    requires
        fx.heal.is_none(),
        fx.teleport.is_none(),
    ensures
        keeps_frame(w, stage_spec(w, ts, fx, needs_stats)),
{
}

proof fn lemma_frame_trans(a: WorldState, b: WorldState, c: WorldState)
    requires
        keeps_frame(a, b),
        keeps_frame(b, c),
    ensures
        keeps_frame(a, c),
{
    assert forall|j: int| 0 <= j < a.entities.len() implies (#[trigger] c.entities[j]).effects.heal == a.entities[j].effects.heal
        && c.entities[j].effects.teleport == a.entities[j].effects.teleport by {
        assert(b.entities[j].effects.heal == a.entities[j].effects.heal);
    }
}

proof fn lemma_heal_step_frame(w: WorldState, ts: Seq<usize>, item: usize, fx: EffectSet, logged: bool)
    ensures
        keeps_frame(w, use_heal_step(w, ts, item, fx, logged)),
{
    if fx.heal.is_some() {
        lemma_heal_targets_keeps_effects(w.entities, ts, DRINK_HEAL_FACTOR * fx.heal.unwrap().heal_amount);
    }
}

proof fn lemma_confusion_step_frame(w: WorldState, ts: Seq<usize>, item: usize, fx: EffectSet, logged: bool)
    ensures
        keeps_frame(w, use_confusion_step(w, ts, item, fx, logged)),
{
    if fx.confusion.is_some() {
        let wl = WorldState { log: if logged { w.log + confusion_entries(ts, item) } else { w.log }, ..w };
        lemma_stage_keeps_heal(wl, ts, part_of(fx, false, false, false, true, false, false), false);
    }
}

proof fn lemma_teleport_frame(w: WorldState, map: DungeonMap, user: int, dest: Position)
    requires
        0 <= user < w.entities.len(),
    ensures
        keeps_frame(w, use_teleport_spec(w, map, user, dest)),
{
}

proof fn lemma_buff_step_frame(w: WorldState, ts: Seq<usize>, fx: EffectSet, invulnerable: bool)
    ensures
        keeps_frame(w, use_buff_step(w, ts, fx, invulnerable)),
{
    lemma_stage_keeps_heal(w, ts, part_of(fx, false, false, false, false, invulnerable, !invulnerable), true);
}

/// A use keeps the entity count, the player, and what each entity heals and
/// how it teleports.
#[verifier::spinoff_prover]
proof fn lemma_use_frame(w: WorldState, map: DungeonMap, user: usize, m: WantsToUseItem, tiles: Seq<Position>, dest: Position)
    requires
        user < w.entities.len(),
        m.item < w.entities.len(),
    ensures
        keeps_frame(w, use_spec(w, map, user, m, tiles, dest)),
{
    reveal(use_spec);
    let ts = use_targets(w, map, user, m, tiles);
    let item = w.entities[m.item as int];
    let logged = user == w.player;
    let s0 = use_harm_step(w, ts, item.effects);
    assert(keeps_frame(w, s0));
    let s1 = stage_spec(s0, ts, part_of(item.effects, false, true, true, false, false, false), false);
    lemma_stage_keeps_heal(s0, ts, part_of(item.effects, false, true, true, false, false, false), false);
    lemma_frame_trans(w, s0, s1);
    let s2 = use_heal_step(s1, ts, m.item, item.effects, logged);
    lemma_heal_step_frame(s1, ts, m.item, item.effects, logged);
    lemma_frame_trans(w, s1, s2);
    let s3 = use_damage_step(s2, ts, m.item, item.inflicts, logged);
    assert(keeps_frame(s2, s3));
    lemma_frame_trans(w, s2, s3);
    let s4 = use_confusion_step(s3, ts, m.item, item.effects, logged);
    lemma_confusion_step_frame(s3, ts, m.item, item.effects, logged);
    lemma_frame_trans(w, s3, s4);
    let s5 = if item.effects.teleport.is_some() { use_teleport_spec(s4, map, user as int, dest) } else { s4 };
    if item.effects.teleport.is_some() {
        lemma_teleport_frame(s4, map, user as int, dest);
    }
    lemma_frame_trans(w, s4, s5);
    let s6 = use_buff_step(s5, ts, item.effects, true);
    lemma_buff_step_frame(s5, ts, item.effects, true);
    lemma_frame_trans(w, s5, s6);
    let s7 = use_buff_step(s6, ts, item.effects, false);
    lemma_buff_step_frame(s6, ts, item.effects, false);
    lemma_frame_trans(w, s6, s7);
    let s8 = if item.consumable {
        WorldState { entities: s7.entities.update(m.item as int, EntityData { alive: false, ..s7.entities[m.item as int] }), ..s7 }
    } else {
        s7
    };
    assert(keeps_frame(s7, s8));
    lemma_frame_trans(w, s7, s8);
}

/// A run of uses in order: `ms[i]` is a user and its request, `tiles[i]` the
/// blast area and `dests[i]` the teleport landing of that use.
pub open spec fn use_all(
    w: WorldState,
    map: DungeonMap,
    ms: Seq<(usize, WantsToUseItem)>,
    tiles: Seq<Seq<Position>>,
    dests: Seq<Option<Position>>,
) -> WorldState
    decreases ms.len(),
{
    if ms.len() == 0 {
        w
    } else {
        let s = use_all(w, map, ms.drop_last(), tiles, dests);
        let k = ms.len() - 1;
        use_spec(s, map, ms[k].0, ms[k].1, tiles[k], match dests[k] { Some(d) => d, None => s.view_pos })
    }
}

proof fn lemma_use_all_prefix(
    w: WorldState,
    map: DungeonMap,
    ms: Seq<(usize, WantsToUseItem)>,
    tiles: Seq<Seq<Position>>,
    dests: Seq<Option<Position>>,
    more: Seq<Option<Position>>,
)
    requires
        dests.len() >= ms.len(),
        more.len() >= ms.len(),
        forall|i: int| 0 <= i < ms.len() ==> dests[i] == more[i],
    ensures
        use_all(w, map, ms, tiles, dests) == use_all(w, map, ms, tiles, more),
    decreases ms.len(),
{
    if ms.len() > 0 {
        lemma_use_all_prefix(w, map, ms.drop_last(), tiles, dests, more);
    }
}

/// The item use system.
pub struct ItemUseSystem {}

impl ItemUseSystem {
    /// Carries out every use request `(user, request)` in order; `tiles[i]`
    /// is the blast area of the `i`-th request's item, if it has an area of
    /// effect. Returns where each use's teleport landed.
    #[verifier::spinoff_prover]
    #[verifier::rlimit(40)]
    pub fn run(
        &mut self,
        world: &mut World,
        map: &DungeonMap,
        intents: &Vec<(usize, WantsToUseItem)>,
        tiles: &Vec<Vec<Position>>,
        rng: &mut rltk::RandomNumberGenerator,
    ) -> (dests: Vec<Option<Position>>)
        requires
            tiles@.len() == intents@.len(),
            forall|i: int| 0 <= i < intents@.len() ==> use_ok(old(world)@, *map, (#[trigger] intents@[i]).0, intents@[i].1),
        ensures
            dests@.len() == intents@.len(),
            final(world)@ == use_all(old(world)@, *map, intents@, tiles@.map_values(|v: Vec<Position>| v@), dests@),
            forall|i: int| 0 <= i < intents@.len() ==> {
                let fx = old(world)@.entities[(#[trigger] intents@[i]).1.item as int].effects;
                &&& dests@[i].is_some() == fx.teleport.is_some()
                &&& dests@[i].is_some() ==> lands_well(*map, fx.teleport.unwrap().safe, dests@[i].unwrap())
            },
    {
        let ghost areas = tiles@.map_values(|v: Vec<Position>| v@);
        let mut dests: Vec<Option<Position>> = Vec::new();
        let mut i: usize = 0;
        while i < intents.len()
            invariant
                i <= intents@.len(),
                dests@.len() == i,
                tiles@.len() == intents@.len(),
                areas == tiles@.map_values(|v: Vec<Position>| v@),
                forall|q: int| 0 <= q < intents@.len() ==> use_ok(old(world)@, *map, (#[trigger] intents@[q]).0, intents@[q].1),
                keeps_frame(old(world)@, world@),
                world@ == use_all(old(world)@, *map, intents@.subrange(0, i as int), areas, dests@),
                forall|q: int| 0 <= q < i ==> {
                    let fx = old(world)@.entities[(#[trigger] intents@[q]).1.item as int].effects;
                    &&& dests@[q].is_some() == fx.teleport.is_some()
                    &&& dests@[q].is_some() ==> lands_well(*map, fx.teleport.unwrap().safe, dests@[q].unwrap())
                },
            decreases intents@.len() - i,
        {
            let (user, m) = intents[i];
            let ghost before = world@;
            let ghost prev = dests@;
            proof {
                assert(use_ok(old(world)@, *map, intents@[i as int].0, intents@[i as int].1));
                assert(use_ok(world@, *map, user, m));
            }
            let r = world.use_item(map, user, m, &tiles[i], rng);
            dests.push(r);
            proof {
                assert(intents@[i as int] == (user, m));
                assert(m.item < old(world)@.entities.len());
                assert(before.entities[m.item as int].effects.teleport == old(world)@.entities[m.item as int].effects.teleport);
                lemma_use_frame(before, *map, user, m, areas[i as int], match r { Some(d) => d, None => before.view_pos });
                assert(intents@.subrange(0, i + 1).drop_last() =~= intents@.subrange(0, i as int));
                lemma_use_all_prefix(old(world)@, *map, intents@.subrange(0, i as int), areas, prev, dests@);
            }
            i = i + 1;
        }
        assert(intents@.subrange(0, i as int) =~= intents@);
        dests
    }
}

} // verus!
