//! The deferred effect processor: resolves the effects staged on every
//! creature, once per player phase.

use vstd::prelude::*;
use vstd::arithmetic::div_mod::lemma_div_is_ordered_by_denominator;
use crate::components::{CombatStats, Position};
use crate::dice::{random_slice_index, roll_die};
use crate::effects::{EffectSet, Invulnerability, LingerType, LingeringEffect, Strength};
use crate::map::DungeonMap;
use crate::world::{occupants_of, EntityData, LogEntry, World, WorldState};

verus! {

/// Farthest distance the blast fall-off tells apart.
pub const MAX_BLAST_DISTANCE: i32 = 999;

/// Burning creatures set each neighbour alight when a roll of this die comes
/// up one. At one, fire always spreads.
pub const FIRE_SPREAD_DIE: i32 = 1;

/// Turns that fire caught from a neighbour burns for.
pub const SPREAD_FIRE_DURATION: i32 = 3;

/// `a / b` rounded towards zero, as integer division does.
pub open spec fn trunc_div(a: int, b: int) -> int {
    if a >= 0 { a / b } else { -((-a) / b) }
}

/// The least `n` from `from` up to the largest blast distance with
/// `sqrt(d2) < n + 1/2`, or the largest blast distance if there is none.
pub open spec fn distance_from(d2: int, from: int) -> int
    decreases MAX_BLAST_DISTANCE - from,
{
    if from >= MAX_BLAST_DISTANCE || 4 * d2 < (2 * from + 1) * (2 * from + 1) {
        from
    } else {
        distance_from(d2, from + 1)
    }
}

/// The distance whose square is `d2`, rounded to the nearest integer and
/// clamped to `1..=MAX_BLAST_DISTANCE`.
pub open spec fn blast_distance(d2: int) -> int {
    distance_from(d2, 1)
}

/// Damage of a blast of `maxdmg` at rounded distance `n`.
pub open spec fn blast_damage(maxdmg: int, n: int) -> int {
    trunc_div(maxdmg, 2 * n)
}

pub open spec fn distance_sq(p: Position, q: Position) -> int {
    (p.x - q.x) * (p.x - q.x) + (p.y - q.y) * (p.y - q.y)
}

proof fn lemma_distance_from_bounds(d2: int, from: int)
    requires
        1 <= from <= MAX_BLAST_DISTANCE,
    ensures
        from <= distance_from(d2, from) <= MAX_BLAST_DISTANCE,
    decreases MAX_BLAST_DISTANCE - from,
{
    if !(from >= MAX_BLAST_DISTANCE || 4 * d2 < (2 * from + 1) * (2 * from + 1)) {
        lemma_distance_from_bounds(d2, from + 1);
    }
}

proof fn lemma_distance_from_far(d2: int, from: int)
    requires
        1 <= from <= MAX_BLAST_DISTANCE,
        d2 > 1000000,
    ensures
        distance_from(d2, from) == MAX_BLAST_DISTANCE,
    decreases MAX_BLAST_DISTANCE - from,
{
    if from < MAX_BLAST_DISTANCE {
        assert((2 * from + 1) * (2 * from + 1) <= 1999 * 1999) by (nonlinear_arith)
            requires 1 <= from < 999;
        lemma_distance_from_far(d2, from + 1);
    }
}

proof fn lemma_distance_from_monotone(d1: int, d2: int, from: int)
    requires
        1 <= from <= MAX_BLAST_DISTANCE,
        d1 <= d2,
    ensures
        distance_from(d1, from) <= distance_from(d2, from),
    decreases MAX_BLAST_DISTANCE - from,
{
    lemma_distance_from_bounds(d2, from);
    if from < MAX_BLAST_DISTANCE && 4 * d1 >= (2 * from + 1) * (2 * from + 1) {
        lemma_distance_from_monotone(d1, d2, from + 1);
    }
}

fn odd_square(n: i64) -> (r: i64)
    requires
        1 <= n <= MAX_BLAST_DISTANCE,
    ensures
        r == (2 * n + 1) * (2 * n + 1),
{
    assert((2 * n + 1) * (2 * n + 1) <= 1999 * 1999) by (nonlinear_arith)
        requires 1 <= n <= 999;
    (2 * n + 1) * (2 * n + 1)
}

/// The rounded, clamped distance of a squared distance.
pub fn blast_distance_of(d2: i64) -> (r: i32)
    requires
        0 <= d2,
    ensures
        r == blast_distance(d2 as int),
        1 <= r <= MAX_BLAST_DISTANCE,
{
    proof {
        lemma_distance_from_bounds(d2 as int, 1);
    }
    if d2 > 1000000 {
        proof {
            lemma_distance_from_far(d2 as int, 1);
        }
        return MAX_BLAST_DISTANCE;
    }
    let mut n: i64 = 1;
    while n < MAX_BLAST_DISTANCE as i64 && 4 * d2 >= odd_square(n)
        invariant
            1 <= n <= MAX_BLAST_DISTANCE,
            0 <= d2 <= 1000000,
            distance_from(d2 as int, n as int) == blast_distance(d2 as int),
        decreases MAX_BLAST_DISTANCE - n,
    {
        n = n + 1;
    }
    n as i32
}

/// Damage of a blast of `maxdmg` on a tile whose squared distance from the
/// centre is `d2`: `maxdmg / (2 * distance)`.
pub fn blast_damage_at(maxdmg: i32, d2: i64) -> (r: i32)
    requires
        0 <= d2,
    ensures
        r == blast_damage(maxdmg as int, blast_distance(d2 as int)),
{
    let n = blast_distance_of(d2) as i64;
    let m = maxdmg as i64;
    let d = 2 * n;
    if m >= 0 {
        assert(m as int / d as int <= m as int) by (nonlinear_arith) requires m >= 0, d >= 1;
        (m / d) as i32
    } else {
        assert((-m) as int / d as int <= (-m) as int) by (nonlinear_arith) requires m < 0, d >= 1;
        (-((-m) / d)) as i32
    }
}

/// Blast damage at distance one is half the maximum, at distance four an
/// eighth of it.
pub proof fn lemma_blast_falloff(maxdmg: int)
    ensures
        blast_damage(maxdmg, blast_distance(1)) == trunc_div(maxdmg, 2),
        blast_damage(maxdmg, blast_distance(16)) == trunc_div(maxdmg, 8),
{
    assert((2 * 1 + 1) * (2 * 1 + 1) == 9) by (nonlinear_arith);
    assert((2 * 2 + 1) * (2 * 2 + 1) == 25) by (nonlinear_arith);
    assert((2 * 3 + 1) * (2 * 3 + 1) == 49) by (nonlinear_arith);
    assert((2 * 4 + 1) * (2 * 4 + 1) == 81) by (nonlinear_arith);
    assert(distance_from(1, 1) == 1);
    assert(distance_from(16, 4) == 4);
    assert(distance_from(16, 3) == 4);
    assert(distance_from(16, 2) == 4);
    assert(distance_from(16, 1) == 4);
}

/// Blast damage never grows with the distance from the centre.
pub proof fn lemma_blast_non_increasing(maxdmg: int, d1: int, d2: int)
    requires
        maxdmg >= 0,
        0 <= d1 <= d2,
    ensures
        blast_damage(maxdmg, blast_distance(d2)) <= blast_damage(maxdmg, blast_distance(d1)),
{
    lemma_distance_from_monotone(d1, d2, 1);
    lemma_distance_from_bounds(d1, 1);
    lemma_div_is_ordered_by_denominator(maxdmg, 2 * blast_distance(d1), 2 * blast_distance(d2));
}

/// A creature whose staged effects the processor resolves.
pub open spec fn processed(e: EntityData) -> bool {
    e.alive && e.stats.is_some() && e.puddle.is_none()
}

/// What resolving `e`'s staged effects needs to stay within `i32`.
pub open spec fn resolvable(e: EntityData) -> bool {
    &&& e.effects.heal.is_some() && e.stats.is_some() ==> e.stats.unwrap().hp + e.effects.heal.unwrap().heal_amount >= i32::MIN
    &&& e.effects.linger.is_some() ==> e.effects.linger.unwrap().duration > i32::MIN
}

/// Healing: hit points rise by the amount, up to the maximum.
pub open spec fn heal_spec(w: WorldState, e: int) -> WorldState {
    let d = w.entities[e];
    match d.effects.heal {
        None => w,
        Some(h) => {
            let st = d.stats.unwrap();
            let hp = if st.hp + h.heal_amount < st.max_hp { st.hp + h.heal_amount } else { st.max_hp as int };
            WorldState {
                entities: w.entities.update(e, EntityData {
                    stats: Some(CombatStats { hp: hp as i32, ..st }),
                    effects: EffectSet { heal: None, ..d.effects },
                    ..d
                }),
                ..w
            }
        },
    }
}

/// Whether `q` is one of the eight tiles round `p`.
pub open spec fn adjacent(p: Position, q: Position) -> bool {
    -1 <= p.x - q.x <= 1 && -1 <= p.y - q.y <= 1 && p != q
}

/// Whether `t` stands next to `p`.
pub open spec fn beside(t: EntityData, p: Position) -> bool {
    t.alive && t.pos.is_some() && adjacent(p, t.pos.unwrap())
}

/// `t` set alight by a burning neighbour that burns for `dmg` a turn.
pub open spec fn ignite(t: EntityData, dmg: i32) -> EntityData {
    EntityData {
        effects: EffectSet {
            linger: Some(LingeringEffect { etype: LingerType::Fire, duration: SPREAD_FIRE_DURATION, dmg }),
            ..t.effects
        },
        ..t
    }
}

/// A lingering effect: one tick of damage, one turn off its duration (gone
/// at zero), and, for fire on a placed creature, every neighbour set alight.
pub open spec fn linger_spec(w: WorldState, e: int) -> WorldState {
    let d = w.entities[e];
    match d.effects.linger {
        None => w,
        Some(l) => {
            let duration = l.duration - 1;
            let me = EntityData {
                effects: EffectSet {
                    linger: if duration == 0 { None } else { Some(LingeringEffect { duration: duration as i32, ..l }) },
                    ..d.effects
                },
                ..d
            };
            let spreads = l.etype == LingerType::Fire && d.pos.is_some();
            WorldState {
                entities: Seq::new(w.entities.len(), |j: int|
                    if j == e {
                        me
                    } else if spreads && beside(w.entities[j], d.pos.unwrap()) {
                        ignite(w.entities[j], l.dmg)
                    } else {
                        w.entities[j]
                    }),
                damage: w.damage.push((e as usize, l.dmg)),
                ..w
            }
        },
    }
}

/// Instant harm: its damage, once.
pub open spec fn harm_spec(w: WorldState, e: int) -> WorldState {
    let d = w.entities[e];
    match d.effects.harm {
        None => w,
        Some(h) => WorldState {
            entities: w.entities.update(e, EntityData { effects: EffectSet { harm: None, ..d.effects }, ..d }),
            damage: w.damage.push((e as usize, h.dmg)),
            ..w
        },
    }
}

/// Invulnerability and strength lose a turn each, and end once they would
/// go below zero.
pub open spec fn buffs_spec(w: WorldState, e: int) -> WorldState {
    let d = w.entities[e];
    let invulnerability = match d.effects.invulnerability {
        Some(i) => if i.turns >= 1 { Some(Invulnerability { turns: (i.turns - 1) as i32 }) } else { None },
        None => None,
    };
    let strength = match d.effects.strength {
        Some(s) => if s.turns >= 1 { Some(Strength { turns: (s.turns - 1) as i32 }) } else { None },
        None => None,
    };
    WorldState {
        entities: w.entities.update(e, EntityData { effects: EffectSet { invulnerability, strength, ..d.effects }, ..d }),
        ..w
    }
}

impl World {
    /// Resolves staged healing on creature `e`.
    pub fn resolve_heal(&mut self, e: usize)
        requires
            e < old(self).entities@.len(),
            processed(old(self).entities@[e as int]),
            resolvable(old(self).entities@[e as int]),
        ensures
            final(self)@ == heal_spec(old(self)@, e as int),
    {
        let d = self.entities[e];
        match d.effects.heal {
            None => {},
            Some(h) => {
                let st = d.stats.unwrap();
                let raised = st.hp as i64 + h.heal_amount as i64;
                let hp = if raised < st.max_hp as i64 { raised as i32 } else { st.max_hp };
                self.entities.set(e, EntityData {
                    stats: Some(CombatStats { hp, ..st }),
                    effects: EffectSet { heal: None, ..d.effects },
                    ..d
                });
                assert(self@ =~= heal_spec(old(self)@, e as int));
            },
        }
    }

    /// Resolves staged instant harm on creature `e`.
    pub fn resolve_harm(&mut self, e: usize)
        requires
            e < old(self).entities@.len(),
        ensures
            final(self)@ == harm_spec(old(self)@, e as int),
    {
        let d = self.entities[e];
        match d.effects.harm {
            None => {},
            Some(h) => {
                self.entities.set(e, EntityData { effects: EffectSet { harm: None, ..d.effects }, ..d });
                self.suffering.new_damage(e, h.dmg);
                assert(self@ =~= harm_spec(old(self)@, e as int));
            },
        }
    }

    /// Counts down invulnerability and strength on creature `e`.
    pub fn resolve_buffs(&mut self, e: usize)
        requires
            e < old(self).entities@.len(),
        ensures
            final(self)@ == buffs_spec(old(self)@, e as int),
    {
        let d = self.entities[e];
        let invulnerability = match d.effects.invulnerability {
            Some(i) => if i.turns >= 1 { Some(Invulnerability { turns: i.turns - 1 }) } else { None },
            None => None,
        };
        let strength = match d.effects.strength {
            Some(s) => if s.turns >= 1 { Some(Strength { turns: s.turns - 1 }) } else { None },
            None => None,
        };
        self.entities.set(e, EntityData { effects: EffectSet { invulnerability, strength, ..d.effects }, ..d });
        assert(self@ =~= buffs_spec(old(self)@, e as int));
    }

    /// Resolves a staged lingering effect on creature `e`, rolling for the
    /// spread of fire to each neighbour.
    pub fn resolve_linger(&mut self, e: usize, rng: &mut rltk::RandomNumberGenerator)
        requires
            e < old(self).entities@.len(),
            resolvable(old(self).entities@[e as int]),
        ensures
            final(self)@ == linger_spec(old(self)@, e as int),
    {
        let d = self.entities[e];
        let l = match d.effects.linger {
            None => { return; },
            Some(l) => l,
        };
        let ghost orig = self.entities@;
        let duration = l.duration - 1;
        if l.etype == LingerType::Fire && d.pos.is_some() {
            let p = d.pos.unwrap();
            let mut j: usize = 0;
            while j < self.entities.len()
                invariant
                    self.entities@.len() == orig.len(),
                    j <= orig.len(),
                    e < orig.len(),
                    d == orig[e as int],
                    d.pos == Some(p),
                    forall|k: int| 0 <= k < orig.len() ==> self.entities@[k] == if k < j && beside(orig[k], p) {
                        ignite(orig[k], l.dmg)
                    } else {
                        orig[k]
                    },
                    self.names == old(self).names,
                    self.suffering == old(self).suffering,
                    self.log == old(self).log,
                    self.player == old(self).player,
                    self.view_pos == old(self).view_pos,
                decreases orig.len() - j,
            {
                let t = self.entities[j];
                let near = match t.pos {
                    Some(q) => t.alive && p.x as i64 - q.x as i64 >= -1 && p.x as i64 - q.x as i64 <= 1
                        && p.y as i64 - q.y as i64 >= -1 && p.y as i64 - q.y as i64 <= 1
                        && !(p.x == q.x && p.y == q.y),
                    None => false,
                };
                if near {
                    if roll_die(rng, FIRE_SPREAD_DIE) == 1 {
                        let fire = LingeringEffect { etype: LingerType::Fire, duration: SPREAD_FIRE_DURATION, dmg: l.dmg };
                        self.entities.set(j, EntityData { effects: EffectSet { linger: Some(fire), ..t.effects }, ..t });
                    }
                }
                j = j + 1;
            }
        }
        let me = EntityData {
            effects: EffectSet {
                linger: if duration == 0 { None } else { Some(LingeringEffect { duration, ..l }) },
                ..d.effects
            },
            ..d
        };
        self.entities.set(e, me);
        self.suffering.new_damage(e, l.dmg);
        assert(self.entities@ =~= linger_spec(old(self)@, e as int).entities);
        assert(self@ =~= linger_spec(old(self)@, e as int));
    }
}

/// The damage a blast of `maxdmg` centred on `p` does, tile by tile, to
/// the creatures on each interior tile of `tiles`.
pub open spec fn blast_entries(
    ents: Seq<EntityData>,
    map: DungeonMap,
    p: Position,
    maxdmg: i32,
    tiles: Seq<Position>,
) -> Seq<(usize, i32)>
    decreases tiles.len(),
{
    if tiles.len() == 0 {
        Seq::empty()
    } else {
        let t = tiles.last();
        let dmg = blast_damage(maxdmg as int, blast_distance(distance_sq(p, t))) as i32;
        blast_entries(ents, map, p, maxdmg, tiles.drop_last()) + if map.interior(t.x as int, t.y as int) {
            occupants_of(ents, t).map_values(|o: usize| (o, dmg))
        } else {
            Seq::empty()
        }
    }
}

/// An explosion: every creature on the blast tiles takes damage that falls
/// off with its distance from the carrier. `tiles` is the carrier's field of
/// view within the blast radius.
pub open spec fn explosion_spec(w: WorldState, map: DungeonMap, e: int, tiles: Seq<Position>) -> WorldState {
    let d = w.entities[e];
    match d.effects.explosion {
        None => w,
        Some(x) => {
            let cleared = w.entities.update(e, EntityData { effects: EffectSet { explosion: None, ..d.effects }, ..d });
            match d.pos {
                None => WorldState { entities: cleared, ..w },
                Some(p) => WorldState {
                    entities: cleared,
                    damage: w.damage + blast_entries(w.entities, map, p, x.maxdmg, tiles),
                    ..w
                },
            }
        },
    }
}

/// The rounded, clamped distance between two tiles.
pub fn tile_blast_distance(p: Position, t: Position) -> (r: i32)
    ensures
        r == blast_distance(distance_sq(p, t)),
        1 <= r <= MAX_BLAST_DISTANCE,
{
    let dx = p.x as i64 - t.x as i64;
    let dy = p.y as i64 - t.y as i64;
    if dx > 1000 || dx < -1000 || dy > 1000 || dy < -1000 {
        proof {
            assert(distance_sq(p, t) > 1000000) by (nonlinear_arith)
                requires
                    dx == p.x - t.x,
                    dy == p.y - t.y,
                    dx > 1000 || dx < -1000 || dy > 1000 || dy < -1000;
            lemma_distance_from_far(distance_sq(p, t), 1);
        }
        return MAX_BLAST_DISTANCE;
    }
    assert(dx * dx <= 1000000 && dy * dy <= 1000000 && dx * dx >= 0 && dy * dy >= 0) by (nonlinear_arith)
        requires -1000 <= dx <= 1000, -1000 <= dy <= 1000;
    blast_distance_of(dx * dx + dy * dy)
}

fn interior_tile(map: &DungeonMap, t: Position) -> (r: bool)
    ensures
        r == map.interior(t.x as int, t.y as int),
{
    0 < t.x && (t.x as i64) < map.width as i64 - 1 && 0 < t.y && (t.y as i64) < map.height as i64 - 1
}

impl World {
    /// Resolves a staged explosion on creature `e`, whose field of view
    /// within the blast radius is `tiles`.
    pub fn resolve_explosion(&mut self, map: &DungeonMap, e: usize, tiles: &Vec<Position>)
        requires
            e < old(self).entities@.len(),
        ensures
            final(self)@ == explosion_spec(old(self)@, *map, e as int, tiles@),
    {
        let d = self.entities[e];
        let x = match d.effects.explosion {
            None => { return; },
            Some(x) => x,
        };
        let ghost orig = self.entities@;
        match d.pos {
            None => {},
            Some(p) => {
                let mut i: usize = 0;
                while i < tiles.len()
                    invariant
                        i <= tiles@.len(),
                        self.entities@ == orig,
                        orig == old(self).entities@,
                        d == orig[e as int],
                        d.pos == Some(p),
                        self.suffering.entries@ == old(self).suffering.entries@
                            + blast_entries(orig, *map, p, x.maxdmg, tiles@.subrange(0, i as int)),
                        self.names == old(self).names,
                        self.log == old(self).log,
                        self.player == old(self).player,
                        self.view_pos == old(self).view_pos,
                    decreases tiles@.len() - i,
                {
                    let t = tiles[i];
                    let ghost before = self.suffering.entries@;
                    assert(tiles@.subrange(0, i + 1).drop_last() =~= tiles@.subrange(0, i as int));
                    if interior_tile(map, t) {
                        let n = tile_blast_distance(p, t) as i64;
                        let m = x.maxdmg as i64;
                        let dmg: i32 = if m >= 0 {
                            assert(m as int / (2 * n) as int <= m as int) by (nonlinear_arith) requires m >= 0, n >= 1;
                            (m / (2 * n)) as i32
                        } else {
                            assert((-m) as int / (2 * n) as int <= (-m) as int) by (nonlinear_arith) requires m < 0, n >= 1;
                            (-((-m) / (2 * n))) as i32
                        };
                        let occ = self.occupants(t);
                        let ghost entries = occ@.map_values(|o: usize| (o, dmg));
                        let mut k: usize = 0;
                        while k < occ.len()
                            invariant
                                k <= occ@.len(),
                                entries == occ@.map_values(|o: usize| (o, dmg)),
                                self.suffering.entries@ == before + entries.subrange(0, k as int),
                                self.entities@ == orig,
                                self.names == old(self).names,
                                self.log == old(self).log,
                                self.player == old(self).player,
                                self.view_pos == old(self).view_pos,
                            decreases occ@.len() - k,
                        {
                            self.suffering.new_damage(occ[k], dmg);
                            assert(entries.subrange(0, k + 1) =~= entries.subrange(0, k as int).push((occ@[k as int], dmg)));
                            k = k + 1;
                        }
                        assert(entries.subrange(0, k as int) =~= entries);
                        assert(self.suffering.entries@ =~= old(self).suffering.entries@
                            + blast_entries(orig, *map, p, x.maxdmg, tiles@.subrange(0, i + 1)));
                    } else {
                        assert(self.suffering.entries@ =~= old(self).suffering.entries@
                            + blast_entries(orig, *map, p, x.maxdmg, tiles@.subrange(0, i + 1)));
                    }
                    i = i + 1;
                }
                assert(tiles@.subrange(0, i as int) =~= tiles@);
            },
        }
        self.entities.set(e, EntityData { effects: EffectSet { explosion: None, ..d.effects }, ..d });
        assert(self@ =~= explosion_spec(old(self)@, *map, e as int, tiles@));
    }
}

/// A teleport of creature `e` to `dest`. A placed creature moves there, and
/// the point of view follows the player. Landing in a wall kills the
/// creature outright; otherwise every creature already on `dest` takes
/// lethal damage (a telefrag).
pub open spec fn teleport_spec(w: WorldState, map: DungeonMap, e: int, dest: Position) -> WorldState {
    let d = w.entities[e];
    match d.effects.teleport {
        None => w,
        Some(t) => {
            let occ = occupants_of(w.entities, dest);
            let placed = d.pos.is_some();
            let moved = EntityData {
                pos: if placed { Some(dest) } else { None },
                effects: EffectSet { teleport: None, ..d.effects },
                ..d
            };
            let view_pos = if placed && e == w.player { dest } else { w.view_pos };
            let log = if placed { w.log.push(LogEntry::TeleportsAway { who: e as usize }) } else { w.log };
            if map.wall_at(dest.x as int, dest.y as int) {
                WorldState {
                    entities: w.entities.update(e, EntityData {
                        stats: Some(CombatStats { hp: 0, ..moved.stats.unwrap() }),
                        ..moved
                    }),
                    log,
                    view_pos,
                    ..w
                }
            } else {
                WorldState {
                    entities: w.entities.update(e, moved),
                    damage: w.damage + occ.map_values(|o: usize| (o, i32::MAX)),
                    log: log + occ.map_values(|o: usize| LogEntry::Telefragged { causer: e as usize, victim: o }),
                    view_pos,
                    ..w
                }
            }
        },
    }
}

impl World {
    /// Teleports creature `e`, which carries a staged teleport, to `dest`.
    pub fn teleport_to(&mut self, map: &DungeonMap, e: usize, dest: Position)
        requires
            map.wf(),
            map.in_bounds(dest.x as int, dest.y as int),
            e < old(self).entities@.len(),
            processed(old(self).entities@[e as int]),
        ensures
            final(self)@ == teleport_spec(old(self)@, *map, e as int, dest),
    {
        let d = self.entities[e];
        if d.effects.teleport.is_none() {
            return;
        }
        let occ = self.occupants(dest);
        let placed = d.pos.is_some();
        let moved = EntityData {
            pos: if placed { Some(dest) } else { None },
            effects: EffectSet { teleport: None, ..d.effects },
            ..d
        };
        if placed {
            if e == self.player {
                self.view_pos = dest;
            }
            self.log.push(LogEntry::TeleportsAway { who: e });
        }
        if map.is_wall(dest.x, dest.y) {
            let st = moved.stats.unwrap();
            self.entities.set(e, EntityData { stats: Some(CombatStats { hp: 0, ..st }), ..moved });
            assert(self@ =~= teleport_spec(old(self)@, *map, e as int, dest));
        } else {
            self.entities.set(e, moved);
            let ghost damage0 = self.suffering.entries@;
            let ghost log0 = self.log@;
            let mut k: usize = 0;
            while k < occ.len()
                invariant
                    k <= occ@.len(),
                    self.suffering.entries@ == damage0 + occ@.subrange(0, k as int).map_values(|o: usize| (o, i32::MAX)),
                    self.log@ == log0 + occ@.subrange(0, k as int).map_values(
                        |o: usize| LogEntry::Telefragged { causer: e, victim: o },
                    ),
                    self.entities@ == old(self).entities@.update(e as int, moved),
                    self.names == old(self).names,
                    self.player == old(self).player,
                    self.view_pos == (if placed && e == old(self).player { dest } else { old(self).view_pos }),
                decreases occ@.len() - k,
            {
                self.suffering.new_damage(occ[k], i32::MAX);
                self.log.push(LogEntry::Telefragged { causer: e, victim: occ[k] });
                assert(occ@.subrange(0, k + 1).map_values(|o: usize| (o, i32::MAX))
                    =~= occ@.subrange(0, k as int).map_values(|o: usize| (o, i32::MAX)).push((occ@[k as int], i32::MAX)));
                assert(occ@.subrange(0, k + 1).map_values(|o: usize| LogEntry::Telefragged { causer: e, victim: o })
                    =~= occ@.subrange(0, k as int).map_values(|o: usize| LogEntry::Telefragged { causer: e, victim: o })
                        .push(LogEntry::Telefragged { causer: e, victim: occ@[k as int] }));
                k = k + 1;
            }
            assert(occ@.subrange(0, k as int) =~= occ@);
            assert(self@ =~= teleport_spec(old(self)@, *map, e as int, dest));
        }
    }
}

/// Draws where a teleport lands. An unsafe teleport lands on any reachable
/// tile; a safe one draws among the reachable tiles that are not walls, and
/// only where there are none (or more than a die can number) falls back to
/// any reachable tile.
pub fn roll_destination(map: &DungeonMap, safe: bool, rng: &mut rltk::RandomNumberGenerator) -> (dest: Position)
    requires
        map.wf(),
        map.width >= 3,
        map.height >= 3,
    ensures
        map.reachable(dest.x as int, dest.y as int),
        safe && 0 < map.open_tiles_spec().len() < i32::MAX ==> map.open_tiles_spec().contains(dest),
{
    if safe {
        let open = map.open_tiles();
        proof {
            map.lemma_open_tiles();
        }
        if open.len() < i32::MAX as usize {
            match random_slice_index(rng, &open) {
                Some(i) => {
                    let dest = open[i];
                    assert(map.open_tiles_spec()[i as int] == dest);
                    return dest;
                },
                None => {},
            }
        }
    }
    let x = roll_die(rng, map.width - 2) + 1;
    let y = roll_die(rng, map.height - 2) + 1;
    Position { x, y }
}

/// A safe teleport drawn from the open tiles never lands in a wall.
pub proof fn lemma_safe_landing(map: DungeonMap, dest: Position)
    requires
        map.wf(),
        map.open_tiles_spec().contains(dest),
    ensures
        !map.wall_at(dest.x as int, dest.y as int),
        map.reachable(dest.x as int, dest.y as int),
{
    map.lemma_open_tiles();
}

impl World {
    /// Resolves a staged teleport on creature `e`; returns where it landed.
    pub fn resolve_teleport(&mut self, map: &DungeonMap, e: usize, rng: &mut rltk::RandomNumberGenerator) -> (r: Option<Position>)
        requires
            e < old(self).entities@.len(),
            old(self).entities@[e as int].effects.teleport.is_some() ==> teleport_map(*map),
            processed(old(self).entities@[e as int]),
        ensures
            match old(self).entities@[e as int].effects.teleport {
                None => r.is_none() && final(self)@ == old(self)@,
                Some(t) => r.is_some() && final(self)@ == teleport_spec(old(self)@, *map, e as int, r.unwrap())
                    && map.reachable(r.unwrap().x as int, r.unwrap().y as int)
                    && (t.safe && 0 < map.open_tiles_spec().len() < i32::MAX
                        ==> map.open_tiles_spec().contains(r.unwrap())),
            },
    {
        match self.entities[e].effects.teleport {
            None => None,
            Some(t) => {
                let dest = roll_destination(map, t.safe, rng);
                self.teleport_to(map, e, dest);
                Some(dest)
            },
        }
    }
}

/// All of creature `e`'s staged effects resolved, in the fixed order: heal,
/// lingering, instant harm, explosion, teleport, then the two buffs.
/// `tiles` is the blast area of its explosion, `dest` where its teleport
/// lands.
pub open spec fn resolve_spec(w: WorldState, map: DungeonMap, e: int, tiles: Seq<Position>, dest: Position) -> WorldState {
    let s1 = heal_spec(w, e);
    let s2 = linger_spec(s1, e);
    let s3 = harm_spec(s2, e);
    let s4 = explosion_spec(s3, map, e, tiles);
    let s5 = teleport_spec(s4, map, e, dest);
    buffs_spec(s5, e)
}

/// A map on which a teleport can be drawn.
pub open spec fn teleport_map(map: DungeonMap) -> bool {
    map.wf() && map.width >= 3 && map.height >= 3
}

/// A creature whose staged effects can be resolved on `map`: a pending
/// teleport needs a map it can be drawn on.
pub open spec fn resolvable_on(map: DungeonMap, e: EntityData) -> bool {
    resolvable(e) && (e.effects.teleport.is_some() ==> teleport_map(map))
}

/// Where a teleport drawn on `map` may land.
pub open spec fn lands_well(map: DungeonMap, safe: bool, dest: Position) -> bool {
    &&& map.reachable(dest.x as int, dest.y as int)
    &&& safe && 0 < map.open_tiles_spec().len() < i32::MAX ==> map.open_tiles_spec().contains(dest)
}

impl World {
    /// Resolves every effect staged on creature `e`; `tiles` is the blast
    /// area of its explosion, if it has one. Returns where its teleport
    /// landed, if it had one.
    #[verifier::spinoff_prover]
    #[verifier::rlimit(80)]
    pub fn resolve_entity(
        &mut self,
        map: &DungeonMap,
        e: usize,
        tiles: &Vec<Position>,
        rng: &mut rltk::RandomNumberGenerator,
    ) -> (r: Option<Position>)
        requires
            e < old(self).entities@.len(),
            processed(old(self).entities@[e as int]),
            resolvable_on(*map, old(self).entities@[e as int]),
        ensures
            r.is_some() == old(self).entities@[e as int].effects.teleport.is_some(),
            r.is_some() ==> lands_well(*map, old(self).entities@[e as int].effects.teleport.unwrap().safe, r.unwrap()),
            final(self)@ == resolve_spec(old(self)@, *map, e as int, tiles@,
                match r { Some(d) => d, None => old(self).view_pos }),
    {
        self.resolve_heal(e);
        self.resolve_linger(e, rng);
        self.resolve_harm(e);
        self.resolve_explosion(map, e, tiles);
        let r = self.resolve_teleport(map, e, rng);
        self.resolve_buffs(e);
        proof {
            reveal(resolve_spec);
        }
        r
    }
}

/// What a step may do to an entity other than the one resolved: nothing,
/// or set it alight.
pub open spec fn untouched_or_lit(a: EntityData, b: EntityData) -> bool {
    b == a || (exists|dmg: i32| b == ignite(a, dmg))
}

proof fn lemma_steps_frame(w: WorldState, map: DungeonMap, e: int, tiles: Seq<Position>, dest: Position, j: int)
    requires
        0 <= e < w.entities.len(),
        0 <= j < w.entities.len(),
        j != e,
    ensures
        heal_spec(w, e).entities.len() == w.entities.len(),
        heal_spec(w, e).entities[j] == w.entities[j],
        linger_spec(w, e).entities.len() == w.entities.len(),
        untouched_or_lit(w.entities[j], linger_spec(w, e).entities[j]),
        harm_spec(w, e).entities.len() == w.entities.len(),
        harm_spec(w, e).entities[j] == w.entities[j],
        explosion_spec(w, map, e, tiles).entities.len() == w.entities.len(),
        explosion_spec(w, map, e, tiles).entities[j] == w.entities[j],
        teleport_spec(w, map, e, dest).entities.len() == w.entities.len(),
        teleport_spec(w, map, e, dest).entities[j] == w.entities[j],
        buffs_spec(w, e).entities.len() == w.entities.len(),
        buffs_spec(w, e).entities[j] == w.entities[j],
{
    match w.entities[e].effects.linger {
        Some(l) => {
            let r = linger_spec(w, e).entities[j];
            if r != w.entities[j] {
                assert(r == ignite(w.entities[j], l.dmg));
            }
        },
        None => {},
    }
}

/// Entities other than `e` keep their stats and staged healing through `e`'s
/// resolution, and their lingering effect is either kept or replaced by
/// freshly caught fire.
#[verifier::spinoff_prover]
proof fn lemma_resolve_frame(w: WorldState, map: DungeonMap, e: int, tiles: Seq<Position>, dest: Position, j: int)
    requires
        0 <= e < w.entities.len(),
        0 <= j < w.entities.len(),
        j != e,
    ensures
        ({
            let r = resolve_spec(w, map, e, tiles, dest);
            &&& r.entities.len() == w.entities.len()
            &&& r.entities[j].stats == w.entities[j].stats
            &&& r.entities[j].alive == w.entities[j].alive
            &&& r.entities[j].puddle == w.entities[j].puddle
            &&& r.entities[j].effects.teleport == w.entities[j].effects.teleport
            &&& r.entities[j].effects.heal == w.entities[j].effects.heal
            &&& (r.entities[j].effects.linger == w.entities[j].effects.linger
                || (r.entities[j].effects.linger.is_some()
                    && r.entities[j].effects.linger.unwrap().duration == SPREAD_FIRE_DURATION))
        }),
{
    reveal(resolve_spec);
    let s1 = heal_spec(w, e);
    lemma_steps_frame(w, map, e, tiles, dest, j);
    let s2 = linger_spec(s1, e);
    lemma_steps_frame(s1, map, e, tiles, dest, j);
    let s3 = harm_spec(s2, e);
    lemma_steps_frame(s2, map, e, tiles, dest, j);
    let s4 = explosion_spec(s3, map, e, tiles);
    lemma_steps_frame(s3, map, e, tiles, dest, j);
    let s5 = teleport_spec(s4, map, e, dest);
    lemma_steps_frame(s4, map, e, tiles, dest, j);
    lemma_steps_frame(s5, map, e, tiles, dest, j);
}

/// The first `k` entities of a phase resolved in id order; `dests` gives
/// where each teleport landed.
pub open spec fn phase_upto(
    w: WorldState,
    map: DungeonMap,
    blasts: Seq<Seq<Position>>,
    dests: Seq<Option<Position>>,
    k: nat,
) -> WorldState
    decreases k,
{
    if k == 0 {
        w
    } else {
        let s = phase_upto(w, map, blasts, dests, (k - 1) as nat);
        let e = k - 1;
        if processed(s.entities[e]) {
            resolve_spec(s, map, e, blasts[e], match dests[e] { Some(d) => d, None => s.view_pos })
        } else {
            s
        }
    }
}

/// The deferred effect processor.
pub struct StainEffect {}

impl StainEffect {
    /// Resolves the staged effects of every creature that is not a puddle,
    /// in id order. `blasts[i]` is the blast area of creature `i`'s
    /// explosion: its field of view within the blast radius. Returns, for
    /// each creature, where its teleport landed.
    #[verifier::spinoff_prover]
    #[verifier::rlimit(40)]
    pub fn run(
        &mut self,
        world: &mut World,
        map: &DungeonMap,
        blasts: &Vec<Vec<Position>>,
        rng: &mut rltk::RandomNumberGenerator,
    ) -> (dests: Vec<Option<Position>>)
        requires
            blasts@.len() == old(world).entities@.len(),
            forall|i: int| 0 <= i < old(world).entities@.len() ==> resolvable_on(*map, #[trigger] old(world).entities@[i]),
        ensures
            dests@.len() == old(world).entities@.len(),
            final(world)@ == phase_upto(old(world)@, *map, blasts@.map_values(|v: Vec<Position>| v@), dests@,
                old(world).entities@.len() as nat),
            forall|i: int| 0 <= i < old(world).entities@.len() ==> {
                let e = #[trigger] old(world).entities@[i];
                &&& dests@[i].is_some() == (processed(e) && e.effects.teleport.is_some())
                &&& dests@[i].is_some() ==> lands_well(*map, e.effects.teleport.unwrap().safe, dests@[i].unwrap())
            },
    {
        let n = world.entities.len();
        let ghost tiles = blasts@.map_values(|v: Vec<Position>| v@);
        let mut dests: Vec<Option<Position>> = Vec::new();
        let mut i: usize = 0;
        while i < n
            invariant
                n == old(world).entities@.len(),
                i <= n,
                blasts@.len() == n,
                tiles == blasts@.map_values(|v: Vec<Position>| v@),
                dests@.len() == i,
                world.entities@.len() == n,
                forall|j: int| i <= j < n ==> resolvable_on(*map, #[trigger] world.entities@[j]),
                forall|j: int| i <= j < n ==> (#[trigger] world.entities@[j]).effects.teleport == old(world).entities@[j].effects.teleport
                    && processed(world.entities@[j]) == processed(old(world).entities@[j]),
                forall|q: int| 0 <= q < i ==> {
                    let e = #[trigger] old(world).entities@[q];
                    &&& dests@[q].is_some() == (processed(e) && e.effects.teleport.is_some())
                    &&& dests@[q].is_some() ==> lands_well(*map, e.effects.teleport.unwrap().safe, dests@[q].unwrap())
                },
                world@ == phase_upto(old(world)@, *map, tiles, dests@, i as nat),
            decreases n - i,
        {
            let ghost before = world@;
            let ghost prev = dests@;
            let d = world.entities[i];
            let r = if d.alive && d.stats.is_some() && d.puddle.is_none() {
                world.resolve_entity(map, i, &blasts[i], rng)
            } else {
                None
            };
            dests.push(r);
            proof {
                assert(dests@.drop_last() =~= prev);
                lemma_phase_upto_dests(old(world)@, *map, tiles, dests@, prev, i as nat);
                assert forall|j: int| i + 1 <= j < n implies resolvable_on(*map, #[trigger] world.entities@[j])
                    && world.entities@[j].effects.teleport == old(world).entities@[j].effects.teleport
                    && processed(world.entities@[j]) == processed(old(world).entities@[j]) by {
                    assert(resolvable_on(*map, before.entities[j]));
                    if processed(d) {
                        lemma_resolve_frame(before, *map, i as int, tiles[i as int],
                            match r { Some(x) => x, None => before.view_pos }, j);
                    }
                }
                assert(dests@[i as int] == r);
                assert(d == before.entities[i as int]);
            }
            i = i + 1;
        }
        dests
    }
}

/// A phase prefix depends only on the landing spots of the entities it covers.
proof fn lemma_phase_upto_dests(
    w: WorldState,
    map: DungeonMap,
    blasts: Seq<Seq<Position>>,
    dests: Seq<Option<Position>>,
    prefix: Seq<Option<Position>>,
    k: nat,
)
    requires
        k <= prefix.len(),
        prefix.len() <= dests.len(),
        forall|i: int| 0 <= i < prefix.len() ==> dests[i] == prefix[i],
    ensures
        phase_upto(w, map, blasts, dests, k) == phase_upto(w, map, blasts, prefix, k),
    decreases k,
{
    if k > 0 {
        lemma_phase_upto_dests(w, map, blasts, dests, prefix, (k - 1) as nat);
    }
}

} // verus!
