//! Throwing items: staging their effects on the impact tile, splashing
//! puddles from potions, and the blunt hit of the item's weight.

use vstd::prelude::*;
use crate::components::{Agitated, Position, Puddle, WantsToThrowItem};
use crate::dice::{random_slice_index, roll_die};
use crate::effects::EffectSet;
use crate::map::DungeonMap;
use crate::mixing::weight_of;
use crate::world::{lemma_occupants, lemma_push_contains, occupants_of, EntityData, World, WorldState};

verus! {

/// Phases a fresh puddle lasts.
pub const PUDDLE_LIFETIME: i32 = 3;

/// Turns a creature stays alert after something is thrown at it.
pub const AGITATION_TURNS: i32 = 2;

/// `target` with every effect of `source` staged on it, each replacing what
/// was pending of its kind.
pub open spec fn overlay(target: EffectSet, source: EffectSet) -> EffectSet {
    EffectSet {
        heal: if source.heal.is_some() { source.heal } else { target.heal },
        teleport: if source.teleport.is_some() { source.teleport } else { target.teleport },
        confusion: if source.confusion.is_some() { source.confusion } else { target.confusion },
        harm: if source.harm.is_some() { source.harm } else { target.harm },
        linger: if source.linger.is_some() { source.linger } else { target.linger },
        explosion: if source.explosion.is_some() { source.explosion } else { target.explosion },
        invulnerability: if source.invulnerability.is_some() { source.invulnerability } else { target.invulnerability },
        strength: if source.strength.is_some() { source.strength } else { target.strength },
    }
}

pub fn overlay_exec(target: &EffectSet, source: &EffectSet) -> (r: EffectSet)
    ensures
        r == overlay(*target, *source),
{
    EffectSet {
        heal: if source.heal.is_some() { source.heal } else { target.heal },
        teleport: if source.teleport.is_some() { source.teleport } else { target.teleport },
        confusion: if source.confusion.is_some() { source.confusion } else { target.confusion },
        harm: if source.harm.is_some() { source.harm } else { target.harm },
        linger: if source.linger.is_some() { source.linger } else { target.linger },
        explosion: if source.explosion.is_some() { source.explosion } else { target.explosion },
        invulnerability: if source.invulnerability.is_some() { source.invulnerability } else { target.invulnerability },
        strength: if source.strength.is_some() { source.strength } else { target.strength },
    }
}

/// An entity on the impact tile: it gets the thrown item's effects staged,
/// and, unless it is a potion or a puddle, it is alerted.
pub open spec fn hit_by(e: EntityData, source: EffectSet) -> EntityData {
    let staged = EntityData { effects: overlay(e.effects, source), ..e };
    if !e.potion && e.puddle.is_none() {
        EntityData { agitated: Some(Agitated { turns: AGITATION_TURNS }), ..staged }
    } else {
        staged
    }
}

/// A puddle splashed by a thrown potion at `p`.
pub open spec fn puddle_at(effects: EffectSet, p: Position) -> EntityData {
    EntityData {
        pos: Some(p),
        puddle: Some(Puddle { lifetime: PUDDLE_LIFETIME }),
        effects,
        ..EntityData::blank_spec()
    }
}

/// The first of `occ` that is not a puddle.
pub open spec fn first_solid(ents: Seq<EntityData>, occ: Seq<usize>) -> Option<usize>
    decreases occ.len(),
{
    if occ.len() == 0 {
        None
    } else if ents[occ[0] as int].puddle.is_none() {
        Some(occ[0])
    } else {
        first_solid(ents, occ.drop_first())
    }
}

/// The offsets a potion's puddles may splash to: the impact tile, or one of
/// the three tiles of the row below it.
pub open spec fn splash_offset(o: (i32, i32)) -> bool {
    -1 <= o.0 <= 1 && 0 <= o.1 <= 1
}

/// A throw of `m.item` onto `m.target`, with puddles at `offsets` from the
/// target when the item is a potion. Every occupant of the target gets the
/// item's effects and, unless a potion or a puddle, is alerted; the first
/// occupant that is not a puddle takes the item's weight as damage. A potion
/// shatters; anything else lands on the target tile.
pub open spec fn throw_spec(w: WorldState, m: WantsToThrowItem, offsets: Seq<(i32, i32)>) -> WorldState {
    let item = w.entities[m.item as int];
    let t = m.target;
    let occ = occupants_of(w.entities, t);
    let hit = Seq::new(w.entities.len(), |j: int|
        if occ.contains(j as usize) { hit_by(w.entities[j], item.effects) } else { w.entities[j] });
    let landed = if item.potion {
        hit.update(m.item as int, EntityData { alive: false, ..hit[m.item as int] })
    } else {
        hit.update(m.item as int, EntityData { in_backpack: None, pos: Some(t), ..hit[m.item as int] })
    };
    let splashes = if item.potion { offsets } else { Seq::empty() };
    WorldState {
        entities: landed + splashes.map_values(|o: (i32, i32)|
            puddle_at(item.effects, Position { x: (t.x + o.0) as i32, y: (t.y + o.1) as i32 })),
        names: w.names + splashes.map_values(|o: (i32, i32)| Seq::<char>::empty()),
        damage: match first_solid(w.entities, occ) {
            Some(o) => w.damage.push((o, weight_of(item) as i32)),
            None => w.damage,
        },
        ..w
    }
}

/// What a throw needs: a real item, a target on the map, room for puddles.
pub open spec fn throw_ok(w: WorldState, map: DungeonMap, m: WantsToThrowItem, offsets: Seq<(i32, i32)>) -> bool {
    &&& m.item < w.entities.len()
    &&& w.names.len() == w.entities.len()
    &&& map.wf()
    &&& map.in_bounds(m.target.x as int, m.target.y as int)
    &&& w.entities.len() + offsets.len() < usize::MAX
    &&& forall|i: int| 0 <= i < offsets.len() ==> splash_offset(#[trigger] offsets[i])
}

impl World {
    /// Throws `m.item` onto `m.target`; a potion splashes puddles at `offsets`.
    pub fn throw_item(&mut self, map: &DungeonMap, m: WantsToThrowItem, offsets: &Vec<(i32, i32)>)
        requires
            throw_ok(old(self)@, *map, m, offsets@),
        ensures
            final(self)@ == throw_spec(old(self)@, m, offsets@),
            old(self).wf() ==> final(self).wf(),
    {
        let item = self.entities[m.item];
        let n = self.entities.len();
        let t = m.target;
        let ghost orig = self.entities@;
        let occ = self.occupants(t);
        proof {
            lemma_occupants(orig, t);
        }
        // the blunt hit goes to the first occupant that is not a puddle
        let mut k: usize = 0;
        let mut solid: Option<usize> = None;
        assert(occ@.subrange(0, occ@.len() as int) =~= occ@);
        while k < occ.len()
            invariant
                k <= occ@.len(),
                occ@ == occupants_of(orig, t),
                self.entities@ == orig,
                forall|i: int| 0 <= i < occ@.len() ==> occ@[i] < orig.len(),
                solid.is_none() ==> first_solid(orig, occ@) == first_solid(orig, occ@.subrange(k as int, occ@.len() as int)),
                solid.is_some() ==> first_solid(orig, occ@) == solid,
            decreases occ@.len() - k,
        {
            if solid.is_none() {
                assert(occ@.subrange(k as int, occ@.len() as int).drop_first()
                    =~= occ@.subrange(k + 1, occ@.len() as int));
                if self.entities[occ[k]].puddle.is_none() {
                    solid = Some(occ[k]);
                }
            }
            k = k + 1;
        }
        if solid.is_none() {
            assert(occ@.subrange(k as int, occ@.len() as int) =~= Seq::<usize>::empty());
        }
        // stage the item's effects on every occupant
        let mut k: usize = 0;
        while k < occ.len()
            invariant
                k <= occ@.len(),
                occ@ == occupants_of(orig, t),
                orig == old(self).entities@,
                orig.len() == n,
                item == orig[m.item as int],
                self.entities@.len() == orig.len(),
                forall|i: int| 0 <= i < occ@.len() ==> occ@[i] < orig.len(),
                forall|j: int| 0 <= j < orig.len() ==> self.entities@[j] == if occ@.subrange(0, k as int).contains(j as usize) {
                    hit_by(orig[j], item.effects)
                } else {
                    orig[j]
                },
                self.names == old(self).names,
                self.suffering == old(self).suffering,
                self.log == old(self).log,
                self.player == old(self).player,
                self.view_pos == old(self).view_pos,
            decreases occ@.len() - k,
        {
            let j = occ[k];
            let e = self.entities[j];
            let staged = EntityData { effects: overlay_exec(&e.effects, &item.effects), ..e };
            let now = if !e.potion && e.puddle.is_none() {
                EntityData { agitated: Some(Agitated { turns: AGITATION_TURNS }), ..staged }
            } else {
                staged
            };
            proof {
                assert(occ@.subrange(0, k + 1) =~= occ@.subrange(0, k as int).push(j));
                assert forall|i: int| 0 <= i < orig.len() implies
                    (#[trigger] occ@.subrange(0, k + 1).contains(i as usize) <==> (occ@.subrange(0, k as int).contains(i as usize) || i == j as int)) by {
                    lemma_push_contains(occ@.subrange(0, k as int), j, i as usize);
                }
                if occ@.subrange(0, k as int).contains(j) {
                    assert(self.entities@[j as int] == hit_by(orig[j as int], item.effects));
                    assert(hit_by(hit_by(orig[j as int], item.effects), item.effects) == hit_by(orig[j as int], item.effects));
                }
            }
            self.entities.set(j, now);
            k = k + 1;
        }
        proof {
            assert(occ@.subrange(0, k as int) =~= occ@);
        }
        let hit_item = self.entities[m.item];
        if item.potion {
            self.entities.set(m.item, EntityData { alive: false, ..hit_item });
        } else {
            self.entities.set(m.item, EntityData { in_backpack: None, pos: Some(t), ..hit_item });
        }
        let ghost landed = self.entities@;
        let ghost names0 = self@.names;
        match solid {
            Some(o) => {
                let weight = match item.weight {
                    Some(w) => w.0,
                    None => 1,
                };
                self.suffering.new_damage(o, weight);
            },
            None => {},
        }
        if item.potion {
            let mut i: usize = 0;
            while i < offsets.len()
                invariant
                    i <= offsets@.len(),
                    item.potion,
                    self.entities@ == landed + offsets@.subrange(0, i as int).map_values(|o: (i32, i32)|
                        puddle_at(item.effects, Position { x: (t.x + o.0) as i32, y: (t.y + o.1) as i32 })),
                    self@.names == names0 + offsets@.subrange(0, i as int).map_values(|o: (i32, i32)| Seq::<char>::empty()),
                    self.entities@.len() == self.names@.len() + (landed.len() - names0.len()),
                    landed.len() + offsets@.len() < usize::MAX,
                    map.wf(),
                    map.in_bounds(t.x as int, t.y as int),
                    forall|q: int| 0 <= q < offsets@.len() ==> splash_offset(#[trigger] offsets@[q]),
                    self.suffering.entries@ == (match first_solid(orig, occupants_of(orig, t)) {
                        Some(o) => old(self).suffering.entries@.push((o, weight_of(item) as i32)),
                        None => old(self).suffering.entries@,
                    }),
                    self.log == old(self).log,
                    self.player == old(self).player,
                    self.view_pos == old(self).view_pos,
                decreases offsets@.len() - i,
            {
                let (dx, dy) = offsets[i];
                assert(splash_offset(offsets@[i as int]));
                let p = Position { x: t.x + dx, y: t.y + dy };
                let blank_name = String::new();
                let mut puddle = EntityData::blank();
                puddle.pos = Some(p);
                puddle.puddle = Some(Puddle { lifetime: PUDDLE_LIFETIME });
                puddle.effects = item.effects;
                let ghost nv = self@.names;
                self.entities.push(puddle);
                self.names.push(blank_name);
                assert(self@.names =~= nv.push(Seq::<char>::empty()));
                proof {
                    assert(offsets@.subrange(0, i + 1) =~= offsets@.subrange(0, i as int).push(offsets@[i as int]));
                    assert(self.entities@ =~= landed + offsets@.subrange(0, i + 1).map_values(|o: (i32, i32)|
                        puddle_at(item.effects, Position { x: (t.x + o.0) as i32, y: (t.y + o.1) as i32 })));
                    assert(self@.names =~= names0 + offsets@.subrange(0, i + 1).map_values(|o: (i32, i32)| Seq::<char>::empty()));
                }
                i = i + 1;
            }
            assert(offsets@.subrange(0, i as int) =~= offsets@);
        } else {
            assert(self.entities@ =~= landed + Seq::<(i32, i32)>::empty().map_values(|o: (i32, i32)|
                puddle_at(item.effects, Position { x: (t.x + o.0) as i32, y: (t.y + o.1) as i32 })));
            assert(self@.names =~= names0 + Seq::<(i32, i32)>::empty().map_values(|o: (i32, i32)| Seq::<char>::empty()));
        }
        proof {
            let target = throw_spec(old(self)@, m, offsets@);
            assert(self.entities@ =~= target.entities);
        }
        assert(self@ =~= throw_spec(old(self)@, m, offsets@));
    }
}

/// The extra splashes a potion's puddles can take.
pub open spec fn splash_row() -> Seq<(i32, i32)> {
    seq![(-1i32, 1i32), (0i32, 1i32), (1i32, 1i32)]
}

/// Draws where a shattered potion's puddles land: the impact tile, then
/// three to six draws among the three tiles of the row below it.
pub fn roll_splash(rng: &mut rltk::RandomNumberGenerator) -> (r: Vec<(i32, i32)>)
    ensures
        4 <= r@.len() <= 7,
        r@[0] == (0i32, 0i32),
        forall|i: int| 0 <= i < r@.len() ==> splash_offset(#[trigger] r@[i]),
{
    let row: Vec<(i32, i32)> = vec![(-1i32, 1i32), (0i32, 1i32), (1i32, 1i32)];
    assert(row@ == splash_row());
    let mut r: Vec<(i32, i32)> = Vec::new();
    r.push((0i32, 0i32));
    let count = roll_die(rng, 4) + 2;
    let mut i: i32 = 0;
    while i < count
        invariant
            0 <= i <= count <= 6,
            row@ == splash_row(),
            r@.len() == 1 + i,
            r@[0] == (0i32, 0i32),
            forall|q: int| 0 <= q < r@.len() ==> splash_offset(#[trigger] r@[q]),
        decreases count - i,
    {
        match random_slice_index(rng, &row) {
            Some(c) => {
                r.push(row[c]);
            },
            None => {
                assert(false);
            },
        }
        i = i + 1;
    }
    r
}

/// A run of throws in order, the `i`-th splashing puddles at `offsets[i]`.
pub open spec fn throw_all(w: WorldState, ms: Seq<WantsToThrowItem>, offsets: Seq<Seq<(i32, i32)>>) -> WorldState
    decreases ms.len(),
{
    if ms.len() == 0 {
        w
    } else {
        throw_spec(throw_all(w, ms.drop_last(), offsets), ms.last(), offsets[ms.len() - 1])
    }
}

proof fn lemma_throw_all_prefix(w: WorldState, ms: Seq<WantsToThrowItem>, offsets: Seq<Seq<(i32, i32)>>, more: Seq<Seq<(i32, i32)>>)
    requires
        offsets.len() >= ms.len(),
        more.len() >= ms.len(),
        forall|i: int| 0 <= i < ms.len() ==> offsets[i] == more[i],
    ensures
        throw_all(w, ms, offsets) == throw_all(w, ms, more),
    decreases ms.len(),
{
    if ms.len() > 0 {
        lemma_throw_all_prefix(w, ms.drop_last(), offsets, more);
    }
}

/// The splash of one throw: a potion's 4 to 7 puddle offsets, the first on
/// the impact tile; nothing for any other item.
pub open spec fn splash_ok(o: Seq<(i32, i32)>, potion: bool) -> bool {
    if potion {
        &&& 4 <= o.len() <= 7
        &&& o[0] == (0i32, 0i32)
        &&& forall|k: int| 0 <= k < o.len() ==> splash_offset(#[trigger] o[k])
    } else {
        o.len() == 0
    }
}

proof fn lemma_throw_keeps_potion(w: WorldState, m: WantsToThrowItem, offsets: Seq<(i32, i32)>)
    requires
        m.item < w.entities.len(),
    ensures
        throw_spec(w, m, offsets).entities.len() >= w.entities.len(),
        forall|j: int| 0 <= j < w.entities.len() ==> (#[trigger] throw_spec(w, m, offsets).entities[j]).potion == w.entities[j].potion,
{
    let item = w.entities[m.item as int];
    let occ = occupants_of(w.entities, m.target);
    let hit = Seq::new(w.entities.len(), |j: int|
        if occ.contains(j as usize) { hit_by(w.entities[j], item.effects) } else { w.entities[j] });
    assert forall|j: int| 0 <= j < w.entities.len() implies (#[trigger] throw_spec(w, m, offsets).entities[j]).potion == w.entities[j].potion by {
        assert(hit[j].potion == w.entities[j].potion);
    }
}

/// The throwing system.
pub struct ItemThrowSystem {}

impl ItemThrowSystem {
    /// Carries out every throw request in order; a thrown potion's puddles
    /// land where `roll_splash` draws them. Returns the splash offsets used
    /// for each throw (none for an item that is not a potion).
    pub fn run(
        &mut self,
        world: &mut World,
        map: &DungeonMap,
        intents: &Vec<WantsToThrowItem>,
        rng: &mut rltk::RandomNumberGenerator,
    ) -> (offsets: Vec<Vec<(i32, i32)>>)
        requires
            old(world).wf(),
            map.wf(),
            old(world).entities@.len() + 7 * intents@.len() < usize::MAX,
            forall|i: int| 0 <= i < intents@.len() ==> {
                let m = #[trigger] intents@[i];
                &&& m.item < old(world).entities@.len()
                &&& map.in_bounds(m.target.x as int, m.target.y as int)
            },
        ensures
            offsets@.len() == intents@.len(),
            final(world)@ == throw_all(old(world)@, intents@, offsets@.map_values(|v: Vec<(i32, i32)>| v@)),
            final(world).wf(),
            forall|i: int| 0 <= i < intents@.len() ==>
                splash_ok(offsets@[i]@, old(world).entities@[(#[trigger] intents@[i]).item as int].potion),
    {
        let mut offsets: Vec<Vec<(i32, i32)>> = Vec::new();
        let mut i: usize = 0;
        while i < intents.len()
            invariant
                i <= intents@.len(),
                offsets@.len() == i,
                world.wf(),
                map.wf(),
                old(world).entities@.len() <= world.entities@.len() <= old(world).entities@.len() + 7 * i,
                old(world).entities@.len() + 7 * intents@.len() < usize::MAX,
                forall|q: int| 0 <= q < intents@.len() ==> {
                    let m = #[trigger] intents@[q];
                    &&& m.item < old(world).entities@.len()
                    &&& map.in_bounds(m.target.x as int, m.target.y as int)
                },
                world@ == throw_all(old(world)@, intents@.subrange(0, i as int),
                    offsets@.map_values(|v: Vec<(i32, i32)>| v@)),
                forall|j: int| 0 <= j < old(world).entities@.len() ==> (#[trigger] world.entities@[j]).potion == old(world).entities@[j].potion,
                forall|q: int| 0 <= q < i ==>
                    splash_ok(offsets@[q]@, old(world).entities@[(#[trigger] intents@[q]).item as int].potion),
            decreases intents@.len() - i,
        {
            let m = intents[i];
            let splash = if world.entities[m.item].potion {
                roll_splash(rng)
            } else {
                Vec::new()
            };
            let ghost before = offsets@.map_values(|v: Vec<(i32, i32)>| v@);
            let ghost w_before = world@;
            proof {
                assert(m == intents@[i as int]);
                assert(splash_ok(splash@, old(world).entities@[m.item as int].potion));
                assert(intents@.subrange(0, i + 1).drop_last() =~= intents@.subrange(0, i as int));
                assert(intents@.subrange(0, i + 1).last() == m);
            }
            world.throw_item(map, m, &splash);
            offsets.push(splash);
            proof {
                let after = offsets@.map_values(|v: Vec<(i32, i32)>| v@);
                lemma_throw_all_prefix(old(world)@, intents@.subrange(0, i as int), before, after);
                assert(after[i as int] == splash@);
                lemma_throw_keeps_potion(w_before, m, splash@);
                assert(offsets@[i as int]@ == splash@);
            }
            i = i + 1;
        }
        assert(intents@.subrange(0, i as int) =~= intents@);
        offsets
    }
}

} // verus!
