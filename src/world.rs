//! The entity arena: every entity's components, the damage accumulator and
//! the message log.

use vstd::prelude::*;
use crate::components::{
    AreaOfEffect, Agitated, CombatStats, InBackpack, InflictsDamage, Position, Puddle, Weight,
};
use crate::effects::EffectSet;

verus! {

/// Everything the engine knows of one entity.
///
/// `effects` holds what an item does, or, on any other entity, the effects
/// staged on it for the next resolution phase. `in_backpack` names the entity whose
/// backpack holds the item.
#[derive(Clone, Copy, Debug, PartialEq, Eq, Structural)]
pub struct EntityData {
    pub alive: bool,
    pub pos: Option<Position>,
    pub stats: Option<CombatStats>,
    pub effects: EffectSet,
    pub item: bool,
    pub consumable: bool,
    pub potion: bool,
    pub puddle: Option<Puddle>,
    pub weight: Option<Weight>,
    pub aoe: Option<AreaOfEffect>,
    pub inflicts: Option<InflictsDamage>,
    pub agitated: Option<Agitated>,
    pub in_backpack: Option<InBackpack>,
    pub boss: bool,
    pub macguffin: bool,
}

impl EntityData {
    /// A live entity with no components.
    pub open spec fn blank_spec() -> EntityData {
        EntityData {
            alive: true,
            pos: None,
            stats: None,
            effects: EffectSet {
                heal: None,
                teleport: None,
                confusion: None,
                harm: None,
                linger: None,
                explosion: None,
                invulnerability: None,
                strength: None,
            },
            item: false,
            consumable: false,
            potion: false,
            puddle: None,
            weight: None,
            aoe: None,
            inflicts: None,
            agitated: None,
            in_backpack: None,
            boss: false,
            macguffin: false,
        }
    }

    pub fn blank() -> (r: EntityData)
        ensures
            r == Self::blank_spec(),
    {
        EntityData {
            alive: true,
            pos: None,
            stats: None,
            effects: EffectSet::none(),
            item: false,
            consumable: false,
            potion: false,
            puddle: None,
            weight: None,
            aoe: None,
            inflicts: None,
            agitated: None,
            in_backpack: None,
            boss: false,
            macguffin: false,
        }
    }
}

/// What happened, for the message log.
#[derive(Clone, Copy, Debug, PartialEq, Eq, Structural)]
pub enum LogEntry {
    CannotMix,
    MixExplodes,
    UsedHealing { item: usize, amount: i32 },
    UsedDamage { item: usize, target: usize, amount: i32 },
    UsedConfusion { item: usize, target: usize },
    TeleportedIntoWall,
    Telefragged { causer: usize, victim: usize },
    TeleportsAway { who: usize },
    Invulnerable,
    Stronger,
    Dies { who: usize },
    PlayerDead,
    BossDefeated,
    MeleeHurts { attacker: usize, target: usize, amount: i32 },
    MeleeCannotHurt { attacker: usize, target: usize },
    PickedUp { item: usize },
    ObtainedStone,
    Dropped { item: usize },
}

/// Damage waiting to be subtracted, as (victim, amount) in arrival order.
pub struct SufferDamage {
    pub entries: Vec<(usize, i32)>,
}

impl SufferDamage {
    /// Records `amount` of damage against `victim`.
    pub fn new_damage(&mut self, victim: usize, amount: i32)
        ensures
            final(self).entries@ == old(self).entries@.push((victim, amount)),
    {
        self.entries.push((victim, amount));
    }
}

/// The abstract state of a world.
#[verifier::ext_equal]
pub struct WorldState {
    pub entities: Seq<EntityData>,
    pub names: Seq<Seq<char>>,
    pub damage: Seq<(usize, i32)>,
    pub log: Seq<LogEntry>,
    pub player: usize,
    pub view_pos: Position,
}

/// All entities, indexed by id, with the shared resources the systems use.
/// `view_pos` is where the point-of-view entity (the player) stands.
pub struct World {
    pub entities: Vec<EntityData>,
    pub names: Vec<String>,
    pub suffering: SufferDamage,
    pub log: Vec<LogEntry>,
    pub player: usize,
    pub view_pos: Position,
}

impl View for World {
    type V = WorldState;

    open spec fn view(&self) -> WorldState {
        WorldState {
            entities: self.entities@,
            names: self.names@.map_values(|s: String| s@),
            damage: self.suffering.entries@,
            log: self.log@,
            player: self.player,
            view_pos: self.view_pos,
        }
    }
}

/// Whether `e` stands on tile `p`.
pub open spec fn stands_on(e: EntityData, p: Position) -> bool {
    e.alive && e.pos == Some(p)
}

/// The ids of the entities that stand on `p`, in id order.
pub open spec fn occupants_of(s: Seq<EntityData>, p: Position) -> Seq<usize>
    decreases s.len(),
{
    if s.len() == 0 {
        Seq::empty()
    } else if stands_on(s.last(), p) {
        occupants_of(s.drop_last(), p).push((s.len() - 1) as usize)
    } else {
        occupants_of(s.drop_last(), p)
    }
}

/// An id is an occupant of `p` exactly when that entity stands on `p`.
pub proof fn lemma_occupants(s: Seq<EntityData>, p: Position)
    requires
        s.len() <= usize::MAX,
    ensures
        forall|i: int|
            0 <= i < occupants_of(s, p).len() ==> occupants_of(s, p)[i] < s.len()
                && stands_on(s[occupants_of(s, p)[i] as int], p),
        forall|i: int|
            0 <= i < s.len() && stands_on(s[i], p) ==> occupants_of(s, p).contains(i as usize),
    decreases s.len(),
{
    if s.len() > 0 {
        let t = s.drop_last();
        lemma_occupants(t, p);
        let o = occupants_of(s, p);
        assert forall|i: int| 0 <= i < o.len() implies o[i] < s.len()
            && stands_on(s[o[i] as int], p) by {
            if i < occupants_of(t, p).len() {
                assert(o[i] == occupants_of(t, p)[i]);
                assert(s[o[i] as int] == t[o[i] as int]);
            }
        }
        assert forall|i: int| 0 <= i < s.len() && stands_on(s[i], p) implies occupants_of(s, p).contains(i as usize) by {
            if i < s.len() - 1 {
                assert(t[i] == s[i]);
                let k = choose|k: int| 0 <= k < occupants_of(t, p).len() && occupants_of(t, p)[k] == i as usize;
                if stands_on(s.last(), p) {
                    assert(occupants_of(s, p)[k] == i as usize);
                }
            } else {
                assert(occupants_of(s, p).last() == i as usize);
            }
        }
    }
}

/// An id is in `s.push(x)` exactly when it is `x` or in `s`.
pub proof fn lemma_push_contains(s: Seq<usize>, x: usize, y: usize)
    ensures
        s.push(x).contains(y) <==> (s.contains(y) || x == y),
{
    if s.contains(y) {
        let i = choose|i: int| 0 <= i < s.len() && s[i] == y;
        assert(s.push(x)[i] == y);
    }
    if x == y {
        assert(s.push(x)[s.len() as int] == y);
    }
    if s.push(x).contains(y) {
        let i = choose|i: int| 0 <= i < s.push(x).len() && s.push(x)[i] == y;
        if i < s.len() {
            assert(s[i] == y);
        }
    }
}

impl World {
    pub open spec fn wf(&self) -> bool {
        &&& self.names@.len() == self.entities@.len()
        &&& self.player < self.entities@.len()
    }

    /// A world holding only the player.
    pub fn new(player: EntityData, player_name: String, view_pos: Position) -> (r: World)
        ensures
            r.wf(),
            r@.entities == seq![player],
            r@.names == seq![player_name@],
            r@.damage.len() == 0,
            r@.log.len() == 0,
            r@.player == 0,
            r@.view_pos == view_pos,
    {
        let mut entities = Vec::new();
        entities.push(player);
        let mut names = Vec::new();
        names.push(player_name);
        let r = World {
            entities,
            names,
            suffering: SufferDamage { entries: Vec::new() },
            log: Vec::new(),
            player: 0,
            view_pos,
        };
        assert(r@.names =~= seq![player_name@]);
        r
    }

    /// Adds an entity and returns its id.
    pub fn spawn(&mut self, data: EntityData, name: String) -> (id: usize)
        requires
            old(self).wf(),
            old(self).entities@.len() < usize::MAX,
        ensures
            final(self).wf(),
            id == old(self).entities@.len(),
            final(self)@ == (WorldState {
                entities: old(self)@.entities.push(data),
                names: old(self)@.names.push(name@),
                ..old(self)@
            }),
    {
        let id = self.entities.len();
        self.entities.push(data);
        self.names.push(name);
        assert(self@.names =~= old(self)@.names.push(name@));
        assert(self@ =~= (WorldState {
            entities: old(self)@.entities.push(data),
            names: old(self)@.names.push(name@),
            ..old(self)@
        }));
        id
    }

    /// The ids of the live entities standing on `p`, in id order.
    pub fn occupants(&self, p: Position) -> (r: Vec<usize>)
        ensures
            r@ == occupants_of(self.entities@, p),
    {
        let mut r: Vec<usize> = Vec::new();
        let mut i: usize = 0;
        while i < self.entities.len()
            invariant
                i <= self.entities@.len(),
                r@ == occupants_of(self.entities@.subrange(0, i as int), p),
            decreases self.entities@.len() - i,
        {
            let e = self.entities[i];
            assert(self.entities@.subrange(0, i + 1).drop_last() =~= self.entities@.subrange(0, i as int));
            if e.alive && e.pos == Some(p) {
                r.push(i);
            }
            i = i + 1;
        }
        assert(self.entities@.subrange(0, i as int) =~= self.entities@);
        r
    }
}

} // verus!
