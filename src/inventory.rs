//! Picking items up and dropping them.

use vstd::prelude::*;
use crate::components::{InBackpack, WantsToDropItem, WantsToPickupItem};
use crate::world::{EntityData, LogEntry, World, WorldState};

verus! {

/// A pickup: the item leaves the floor for the collector's backpack, and
/// the player hears of it (the stone wins the game).
pub open spec fn pickup_spec(w: WorldState, p: WantsToPickupItem) -> WorldState {
    let item = w.entities[p.item as int];
    let log = if p.collected_by != w.player {
        w.log
    } else if item.macguffin {
        w.log.push(LogEntry::ObtainedStone)
    } else {
        w.log.push(LogEntry::PickedUp { item: p.item })
    };
    WorldState {
        entities: w.entities.update(p.item as int, EntityData { pos: None, in_backpack: Some(InBackpack { owner: p.collected_by }), ..item }),
        log,
        ..w
    }
}

/// A run of pickups, in order.
pub open spec fn pickup_all(w: WorldState, ps: Seq<WantsToPickupItem>) -> WorldState
    decreases ps.len(),
{
    if ps.len() == 0 { w } else { pickup_spec(pickup_all(w, ps.drop_last()), ps.last()) }
}

/// Whether the player picks the stone up in one of the first `k` pickups.
pub open spec fn stone_taken(w: WorldState, ps: Seq<WantsToPickupItem>, k: nat) -> bool
    decreases k,
{
    if k == 0 {
        false
    } else {
        let i = k - 1;
        stone_taken(w, ps, (k - 1) as nat) || (ps[i].collected_by == w.player
            && pickup_all(w, ps.subrange(0, i))
                .entities[ps[i].item as int].macguffin)
    }
}

proof fn lemma_pickup_all_frame(w: WorldState, ps: Seq<WantsToPickupItem>)
    requires
        forall|i: int| 0 <= i < ps.len() ==> (#[trigger] ps[i]).item < w.entities.len(),
    ensures
        pickup_all(w, ps).entities.len() == w.entities.len(),
        pickup_all(w, ps).player == w.player,
    decreases ps.len(),
{
    if ps.len() > 0 {
        lemma_pickup_all_frame(w, ps.drop_last());
    }
}

/// The pickup system.
pub struct InventorySystem {}

impl InventorySystem {
    /// Carries out every pickup in order; returns whether the player took
    /// the stone.
    pub fn run(&mut self, world: &mut World, pickups: &Vec<WantsToPickupItem>) -> (won: bool)
        requires
            forall|i: int| 0 <= i < pickups@.len() ==> (#[trigger] pickups@[i]).item < old(world).entities@.len(),
        ensures
            final(world)@ == pickup_all(old(world)@, pickups@),
            won == stone_taken(old(world)@, pickups@, pickups@.len()),
    {
        let mut won = false;
        let mut i: usize = 0;
        while i < pickups.len()
            invariant
                i <= pickups@.len(),
                forall|q: int| 0 <= q < pickups@.len() ==> (#[trigger] pickups@[q]).item < old(world).entities@.len(),
                world@ == pickup_all(old(world)@, pickups@.subrange(0, i as int)),
                world.entities@.len() == old(world).entities@.len(),
                world.player == old(world).player,
                won == stone_taken(old(world)@, pickups@, i as nat),
            decreases pickups@.len() - i,
        {
            let p = pickups[i];
            assert(pickups@.subrange(0, i + 1).drop_last() =~= pickups@.subrange(0, i as int));
            assert(p.item < world.entities@.len());
            let item = world.entities[p.item];
            if p.collected_by == world.player {
                if item.macguffin {
                    world.log.push(LogEntry::ObtainedStone);
                    won = true;
                } else {
                    world.log.push(LogEntry::PickedUp { item: p.item });
                }
            }
            world.entities.set(p.item, EntityData { pos: None, in_backpack: Some(InBackpack { owner: p.collected_by }), ..item });
            assert(world@ =~= pickup_all(old(world)@, pickups@.subrange(0, i + 1)));
            i = i + 1;
        }
        assert(pickups@.subrange(0, i as int) =~= pickups@);
        won
    }
}

/// A drop: the item leaves the dropper's backpack for the tile the dropper
/// stands on, and the player hears of it.
pub open spec fn drop_spec(w: WorldState, d: WantsToDropItem) -> WorldState {
    let item = w.entities[d.item as int];
    WorldState {
        entities: w.entities.update(d.item as int, EntityData {
            pos: w.entities[d.dropper as int].pos,
            in_backpack: None,
            ..item
        }),
        log: if d.dropper == w.player { w.log.push(LogEntry::Dropped { item: d.item }) } else { w.log },
        ..w
    }
}

/// A run of drops, in order.
pub open spec fn drop_all(w: WorldState, ds: Seq<WantsToDropItem>) -> WorldState
    decreases ds.len(),
{
    if ds.len() == 0 { w } else { drop_spec(drop_all(w, ds.drop_last()), ds.last()) }
}

/// A drop request that can be carried out: both entities exist and the
/// dropper stands somewhere.
pub open spec fn drop_ok(ents: Seq<EntityData>, d: WantsToDropItem) -> bool {
    d.item < ents.len() && d.dropper < ents.len() && ents[d.dropper as int].pos.is_some()
}

/// The drop system.
pub struct ItemDropSystem {}

impl ItemDropSystem {
    /// Carries out every drop in order.
    pub fn run(&mut self, world: &mut World, drops: &Vec<WantsToDropItem>)
        requires
            forall|i: int| 0 <= i < drops@.len() ==> drop_ok(old(world).entities@, #[trigger] drops@[i]),
        ensures
            final(world)@ == drop_all(old(world)@, drops@),
    {
        let mut i: usize = 0;
        while i < drops.len()
            invariant
                i <= drops@.len(),
                forall|q: int| 0 <= q < drops@.len() ==> drop_ok(old(world).entities@, #[trigger] drops@[q]),
                world@ == drop_all(old(world)@, drops@.subrange(0, i as int)),
                world.entities@.len() == old(world).entities@.len(),
                forall|j: int| 0 <= j < world.entities@.len() ==> (#[trigger] world.entities@[j]).pos.is_some()
                    || old(world).entities@[j].pos.is_none(),
            decreases drops@.len() - i,
        {
            let d = drops[i];
            assert(drops@.subrange(0, i + 1).drop_last() =~= drops@.subrange(0, i as int));
            assert(drop_ok(old(world).entities@, drops@[i as int]));
            let at = world.entities[d.dropper].pos;
            let item = world.entities[d.item];
            world.entities.set(d.item, EntityData { pos: at, in_backpack: None, ..item });
            if d.dropper == world.player {
                world.log.push(LogEntry::Dropped { item: d.item });
            }
            assert(world@ =~= drop_all(old(world)@, drops@.subrange(0, i + 1)));
            i = i + 1;
        }
        assert(drops@.subrange(0, i as int) =~= drops@);
    }
}

} // verus!
