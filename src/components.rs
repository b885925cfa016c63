//! Plain data attached to entities: positions, stats and item properties.

use vstd::prelude::*;

verus! {

/// A tile coordinate.
#[derive(Clone, Copy, Debug, PartialEq, Eq, Structural)]
pub struct Position {
    pub x: i32,
    pub y: i32,
}

#[derive(Clone, Copy, Debug, PartialEq, Eq, Structural)]
pub struct CombatStats {
    pub max_hp: i32,
    pub hp: i32,
    pub defence: i32,
    pub power: i32,
}

/// An ephemeral ground hazard with the phases it has left.
#[derive(Clone, Copy, Debug, PartialEq, Eq, Structural)]
pub struct Puddle {
    pub lifetime: i32,
}

/// How heavy an item is: the blunt damage it does when thrown.
#[derive(Clone, Copy, Debug, PartialEq, Eq, Structural)]
pub struct Weight(pub i32);

#[derive(Clone, Copy, Debug, PartialEq, Eq, Structural)]
pub struct AreaOfEffect {
    pub radius: i32,
}

#[derive(Clone, Copy, Debug, PartialEq, Eq, Structural)]
pub struct InflictsDamage {
    pub damage: i32,
}

/// An alerted creature, with the turns its alert lasts.
#[derive(Clone, Copy, Debug, PartialEq, Eq, Structural)]
pub struct Agitated {
    pub turns: i32,
}

/// An item held in the inventory of `owner`.
#[derive(Clone, Copy, Debug, PartialEq, Eq, Structural)]
pub struct InBackpack {
    pub owner: usize,
}

/// A request of `collected_by` to pick `item` up.
#[derive(Clone, Copy, Debug, PartialEq, Eq, Structural)]
pub struct WantsToPickupItem {
    pub collected_by: usize,
    pub item: usize,
}

/// A request of `dropper` to drop `item` where it stands.
#[derive(Clone, Copy, Debug, PartialEq, Eq, Structural)]
pub struct WantsToDropItem {
    pub dropper: usize,
    pub item: usize,
}

/// A request of `attacker` to strike `target` in melee.
#[derive(Clone, Copy, Debug, PartialEq, Eq, Structural)]
pub struct WantsToMelee {
    pub attacker: usize,
    pub target: usize,
}

/// A request to mix two potions.
#[derive(Clone, Copy, Debug, PartialEq, Eq, Structural)]
pub struct WantsToMixPotions {
    pub first: usize,
    pub second: usize,
}

/// A request to use an item, on its user or on a target tile.
#[derive(Clone, Copy, Debug, PartialEq, Eq, Structural)]
pub struct WantsToUseItem {
    pub item: usize,
    pub target: Option<Position>,
}

/// A request to throw an item onto a tile.
#[derive(Clone, Copy, Debug, PartialEq, Eq, Structural)]
pub struct WantsToThrowItem {
    pub item: usize,
    pub target: Position,
}

} // verus!
