//! The effect catalog: the closed set of effect kinds and their payloads.

use vstd::prelude::*;

verus! {

/// The kind of a damage-over-time effect.
#[derive(Clone, Copy, Debug, PartialEq, Eq, Structural)]
pub enum LingerType {
    Fire,
    Poison,
}

/// Restores hit points.
#[derive(Clone, Copy, Debug, PartialEq, Eq, Structural)]
pub struct ProvidesHealing {
    pub heal_amount: i32,
}

/// Moves the carrier to a random tile. A safe teleport never lands in a wall.
#[derive(Clone, Copy, Debug, PartialEq, Eq, Structural)]
pub struct Teleport {
    pub safe: bool,
}

#[derive(Clone, Copy, Debug, PartialEq, Eq, Structural)]
pub struct Confusion {
    pub turns: i32,
}

/// Damage dealt once.
#[derive(Clone, Copy, Debug, PartialEq, Eq, Structural)]
pub struct InstantHarm {
    pub dmg: i32,
}

/// Damage dealt every phase until the duration runs out.
#[derive(Clone, Copy, Debug, PartialEq, Eq, Structural)]
pub struct LingeringEffect {
    pub etype: LingerType,
    pub duration: i32,
    pub dmg: i32,
}

/// A blast whose damage falls off with the distance from its centre.
#[derive(Clone, Copy, Debug, PartialEq, Eq, Structural)]
pub struct Explosion {
    pub maxdmg: i32,
    pub radius: i32,
}

#[derive(Clone, Copy, Debug, PartialEq, Eq, Structural)]
pub struct Invulnerability {
    pub turns: i32,
}

#[derive(Clone, Copy, Debug, PartialEq, Eq, Structural)]
pub struct Strength {
    pub turns: i32,
}

/// One effect of any kind, with its payload.
#[derive(Clone, Copy, Debug, PartialEq, Eq, Structural)]
pub enum PotionEffect {
    Heal(ProvidesHealing),
    Teleport(Teleport),
    Confusion(Confusion),
    Harm(InstantHarm),
    Linger(LingeringEffect),
    Explosion(Explosion),
    Invulnerability(Invulnerability),
    Strength(Strength),
}

/// The effects an entity carries, at most one of each kind.
///
/// On an item these are what the item does; on any other entity they are
/// staged effects that wait for the next resolution phase.
#[derive(Clone, Copy, Debug, PartialEq, Eq, Structural)]
pub struct EffectSet {
    pub heal: Option<ProvidesHealing>,
    pub teleport: Option<Teleport>,
    pub confusion: Option<Confusion>,
    pub harm: Option<InstantHarm>,
    pub linger: Option<LingeringEffect>,
    pub explosion: Option<Explosion>,
    pub invulnerability: Option<Invulnerability>,
    pub strength: Option<Strength>,
}

/// Bits of the kinds that take part in mixing, one per kind.
pub const HEAL_BIT: u8 = 1;
pub const TELEPORT_BIT: u8 = 2;
pub const CONFUSION_BIT: u8 = 4;
pub const HARM_BIT: u8 = 8;
pub const LINGER_BIT: u8 = 16;
pub const EXPLOSION_BIT: u8 = 32;

/// `round(total * 0.6)`, halves rounded away from zero: the diminishing
/// return of stacking two effects of one kind.
pub open spec fn diminished(total: int) -> int {
    if total >= 0 {
        (3 * total + 2) / 5
    } else {
        -((-3 * total + 2) / 5)
    }
}

pub open spec fn fits_i32(x: int) -> bool {
    i32::MIN <= x <= i32::MAX
}

impl EffectSet {
    pub open spec fn is_empty(self) -> bool {
        self.heal.is_none() && self.teleport.is_none() && self.confusion.is_none()
            && self.harm.is_none() && self.linger.is_none() && self.explosion.is_none()
            && self.invulnerability.is_none() && self.strength.is_none()
    }

    /// The bitmask of the six ordinary kinds present (distinct bits, so the
    /// sum is their union).
    pub open spec fn mask_spec(self) -> u8 {
        ((if self.heal.is_some() { HEAL_BIT as int } else { 0 })
        + (if self.teleport.is_some() { TELEPORT_BIT as int } else { 0 })
        + (if self.confusion.is_some() { CONFUSION_BIT as int } else { 0 })
        + (if self.harm.is_some() { HARM_BIT as int } else { 0 })
        + (if self.linger.is_some() { LINGER_BIT as int } else { 0 })
        + (if self.explosion.is_some() { EXPLOSION_BIT as int } else { 0 })) as u8
    }

    pub open spec fn none_spec() -> EffectSet {
        EffectSet {
            heal: None,
            teleport: None,
            confusion: None,
            harm: None,
            linger: None,
            explosion: None,
            invulnerability: None,
            strength: None,
        }
    }

    pub fn none() -> (r: EffectSet)
        ensures
            r.is_empty(),
            r == Self::none_spec(),
    {
        EffectSet {
            heal: None,
            teleport: None,
            confusion: None,
            harm: None,
            linger: None,
            explosion: None,
            invulnerability: None,
            strength: None,
        }
    }

    /// The bitmask of the six ordinary kinds this set holds.
    pub fn mask(&self) -> (r: u8)
        ensures
            r == self.mask_spec(),
    {
        let mut m: u8 = 0;
        if self.heal.is_some() {
            m = m + HEAL_BIT;
        }
        if self.teleport.is_some() {
            m = m + TELEPORT_BIT;
        }
        if self.confusion.is_some() {
            m = m + CONFUSION_BIT;
        }
        if self.harm.is_some() {
            m = m + HARM_BIT;
        }
        if self.linger.is_some() {
            m = m + LINGER_BIT;
        }
        if self.explosion.is_some() {
            m = m + EXPLOSION_BIT;
        }
        m
    }

    /// The set holding the single effect `e`.
    pub open spec fn single_spec(e: PotionEffect) -> EffectSet {
        let n = EffectSet {
            heal: None,
            teleport: None,
            confusion: None,
            harm: None,
            linger: None,
            explosion: None,
            invulnerability: None,
            strength: None,
        };
        match e {
            PotionEffect::Heal(h) => EffectSet { heal: Some(h), ..n },
            PotionEffect::Teleport(t) => EffectSet { teleport: Some(t), ..n },
            PotionEffect::Confusion(c) => EffectSet { confusion: Some(c), ..n },
            PotionEffect::Harm(h) => EffectSet { harm: Some(h), ..n },
            PotionEffect::Linger(l) => EffectSet { linger: Some(l), ..n },
            PotionEffect::Explosion(x) => EffectSet { explosion: Some(x), ..n },
            PotionEffect::Invulnerability(i) => EffectSet { invulnerability: Some(i), ..n },
            PotionEffect::Strength(s) => EffectSet { strength: Some(s), ..n },
        }
    }

    pub fn single(e: PotionEffect) -> (r: EffectSet)
        ensures
            r == Self::single_spec(e),
    {
        let mut r = EffectSet::none();
        match e {
            PotionEffect::Heal(h) => r.heal = Some(h),
            PotionEffect::Teleport(t) => r.teleport = Some(t),
            PotionEffect::Confusion(c) => r.confusion = Some(c),
            PotionEffect::Harm(h) => r.harm = Some(h),
            PotionEffect::Linger(l) => r.linger = Some(l),
            PotionEffect::Explosion(x) => r.explosion = Some(x),
            PotionEffect::Invulnerability(i) => r.invulnerability = Some(i),
            PotionEffect::Strength(s) => r.strength = Some(s),
        }
        r
    }
}

/// `round((a + b) * 0.6)`, computed exactly on integers.
pub fn diminished_sum(a: i32, b: i32) -> (r: i32)
    requires
        fits_i32(a + b),
    ensures
        r == diminished(a + b),
{
    let t: i64 = a as i64 + b as i64;
    if t >= 0 {
        assert((3 * t + 2) / 5 <= t) by (nonlinear_arith) requires t >= 0;
        ((3 * t + 2) / 5) as i32
    } else {
        assert((-3 * t + 2) / 5 <= -t) by (nonlinear_arith) requires t < 0;
        (-((-3 * t + 2) / 5)) as i32
    }
}

} // verus!
