//! The mixing engine: two potions in, one new potion (or an explosion) out.

use vstd::prelude::*;
use crate::combo::{generate_combos, combo_table_for, ComboTable};
use crate::components::{InBackpack, Weight, WantsToMixPotions};
use crate::effects::{
    diminished, diminished_sum, fits_i32, Confusion, EffectSet, Explosion, InstantHarm, LingerType,
    LingeringEffect, PotionEffect, ProvidesHealing, Teleport,
};
use crate::world::{EntityData, LogEntry, World, WorldState};

verus! {

/// Healing and harm in one mix: the violent special case.
pub open spec fn violent(a: EffectSet, b: EffectSet) -> bool {
    (a.heal.is_some() && b.harm.is_some()) || (a.harm.is_some() && b.heal.is_some())
}

/// Lingering effects in their canonical order: kind (fire first), duration, damage.
pub open spec fn linger_le(a: LingeringEffect, b: LingeringEffect) -> bool {
    let ka: int = if a.etype == LingerType::Fire { 0 } else { 1 };
    let kb: int = if b.etype == LingerType::Fire { 0 } else { 1 };
    ka < kb || (ka == kb && (a.duration < b.duration || (a.duration == b.duration && a.dmg <= b.dmg)))
}

/// Explosions in their canonical order: damage, then radius.
pub open spec fn explosion_le(a: Explosion, b: Explosion) -> bool {
    a.maxdmg < b.maxdmg || (a.maxdmg == b.maxdmg && a.radius <= b.radius)
}

/// Two lingering effects combined: fire dominates poison, durations stack
/// with diminishing returns, and the damage is that of the later one in
/// canonical order.
pub open spec fn merge_linger(a: LingeringEffect, b: LingeringEffect) -> LingeringEffect {
    LingeringEffect {
        etype: if a.etype == LingerType::Fire || b.etype == LingerType::Fire {
            LingerType::Fire
        } else {
            LingerType::Poison
        },
        duration: diminished(a.duration + b.duration) as i32,
        dmg: if linger_le(a, b) { b.dmg } else { a.dmg },
    }
}

/// Two explosions combined: damage stacks with diminishing returns, and the
/// radius is that of the later one in canonical order.
pub open spec fn merge_explosion(a: Explosion, b: Explosion) -> Explosion {
    Explosion {
        maxdmg: diminished(a.maxdmg + b.maxdmg) as i32,
        radius: if explosion_le(a, b) { b.radius } else { a.radius },
    }
}

/// The ordinary effects of two potions merged kind by kind. Effects of the
/// two special kinds do not take part in mixing.
pub open spec fn merged(a: EffectSet, b: EffectSet) -> EffectSet {
    EffectSet {
        heal: match (a.heal, b.heal) {
            (Some(x), Some(y)) => Some(ProvidesHealing { heal_amount: (x.heal_amount + y.heal_amount) as i32 }),
            (Some(x), None) => Some(x),
            (None, y) => y,
        },
        teleport: match (a.teleport, b.teleport) {
            (Some(x), Some(y)) => Some(Teleport { safe: x.safe || y.safe }),
            (Some(x), None) => Some(x),
            (None, y) => y,
        },
        confusion: match (a.confusion, b.confusion) {
            (Some(x), Some(y)) => Some(Confusion { turns: diminished(x.turns + y.turns) as i32 }),
            (Some(x), None) => Some(x),
            (None, y) => y,
        },
        harm: match (a.harm, b.harm) {
            (Some(x), Some(y)) => Some(InstantHarm { dmg: diminished(x.dmg + y.dmg) as i32 }),
            (Some(x), None) => Some(x),
            (None, y) => y,
        },
        linger: match (a.linger, b.linger) {
            (Some(x), Some(y)) => Some(merge_linger(x, y)),
            (Some(x), None) => Some(x),
            (None, y) => y,
        },
        explosion: match (a.explosion, b.explosion) {
            (Some(x), Some(y)) => Some(merge_explosion(x, y)),
            (Some(x), None) => Some(x),
            (None, y) => y,
        },
        invulnerability: None,
        strength: None,
    }
}

/// Every sum that merging computes fits in an `i32`.
pub open spec fn mergeable(a: EffectSet, b: EffectSet) -> bool {
    &&& (a.heal.is_some() && b.heal.is_some()) ==> fits_i32(a.heal.unwrap().heal_amount + b.heal.unwrap().heal_amount)
    &&& (a.confusion.is_some() && b.confusion.is_some()) ==> fits_i32(a.confusion.unwrap().turns + b.confusion.unwrap().turns)
    &&& (a.harm.is_some() && b.harm.is_some()) ==> fits_i32(a.harm.unwrap().dmg + b.harm.unwrap().dmg)
    &&& (a.linger.is_some() && b.linger.is_some()) ==> fits_i32(a.linger.unwrap().duration + b.linger.unwrap().duration)
    &&& (a.explosion.is_some() && b.explosion.is_some()) ==> fits_i32(a.explosion.unwrap().maxdmg + b.explosion.unwrap().maxdmg)
}

/// The key a mix is looked up under: the union of both kind masks.
pub open spec fn mix_key(a: EffectSet, b: EffectSet) -> u8 {
    a.mask_spec() | b.mask_spec()
}

/// The effects of a non-violent mix: the combo table's special effect alone
/// when it holds the mix key, else the merge.
pub open spec fn mixed_effects(a: EffectSet, b: EffectSet, table: Map<u8, PotionEffect>) -> EffectSet {
    if table.contains_key(mix_key(a, b)) {
        EffectSet::single_spec(table[mix_key(a, b)])
    } else {
        merged(a, b)
    }
}

fn linger_le_exec(a: LingeringEffect, b: LingeringEffect) -> (r: bool)
    ensures
        r == linger_le(a, b),
{
    let ka: u8 = if a.etype == LingerType::Fire { 0 } else { 1 };
    let kb: u8 = if b.etype == LingerType::Fire { 0 } else { 1 };
    ka < kb || (ka == kb && (a.duration < b.duration || (a.duration == b.duration && a.dmg <= b.dmg)))
}

/// Merges the ordinary effects of two potions kind by kind.
pub fn merge_effects(a: &EffectSet, b: &EffectSet) -> (r: EffectSet)
    requires
        mergeable(*a, *b),
    ensures
        r == merged(*a, *b),
{
    let heal = match (a.heal, b.heal) {
        (Some(x), Some(y)) => Some(ProvidesHealing { heal_amount: x.heal_amount + y.heal_amount }),
        (Some(x), None) => Some(x),
        (None, y) => y,
    };
    let teleport = match (a.teleport, b.teleport) {
        (Some(x), Some(y)) => Some(Teleport { safe: x.safe || y.safe }),
        (Some(x), None) => Some(x),
        (None, y) => y,
    };
    let confusion = match (a.confusion, b.confusion) {
        (Some(x), Some(y)) => Some(Confusion { turns: diminished_sum(x.turns, y.turns) }),
        (Some(x), None) => Some(x),
        (None, y) => y,
    };
    let harm = match (a.harm, b.harm) {
        (Some(x), Some(y)) => Some(InstantHarm { dmg: diminished_sum(x.dmg, y.dmg) }),
        (Some(x), None) => Some(x),
        (None, y) => y,
    };
    let linger = match (a.linger, b.linger) {
        (Some(x), Some(y)) => {
            let etype = if x.etype == LingerType::Fire || y.etype == LingerType::Fire {
                LingerType::Fire
            } else {
                LingerType::Poison
            };
            let dmg = if linger_le_exec(x, y) { y.dmg } else { x.dmg };
            Some(LingeringEffect { etype, duration: diminished_sum(x.duration, y.duration), dmg })
        },
        (Some(x), None) => Some(x),
        (None, y) => y,
    };
    let explosion = match (a.explosion, b.explosion) {
        (Some(x), Some(y)) => {
            let later = x.maxdmg < y.maxdmg || (x.maxdmg == y.maxdmg && x.radius <= y.radius);
            let radius = if later { y.radius } else { x.radius };
            Some(Explosion { maxdmg: diminished_sum(x.maxdmg, y.maxdmg), radius })
        },
        (Some(x), None) => Some(x),
        (None, y) => y,
    };
    EffectSet {
        heal,
        teleport,
        confusion,
        harm,
        linger,
        explosion,
        invulnerability: None,
        strength: None,
    }
}

/// The effects of mixing two non-violent potions under a combo table.
pub fn mix_effects(a: &EffectSet, b: &EffectSet, table: &ComboTable) -> (r: EffectSet)
    requires
        !table@.contains_key(mix_key(*a, *b)) ==> mergeable(*a, *b),
    ensures
        r == mixed_effects(*a, *b, table@),
{
    let key = a.mask() | b.mask();
    match table.get(key) {
        Some(special) => EffectSet::single(special),
        None => merge_effects(a, b),
    }
}

/// The colours that a potion's effects lend it.
#[derive(Clone, Copy, Debug, PartialEq, Eq, Structural)]
pub enum Hue {
    Magenta,
    Violet,
    Pink,
    DarkRed,
    Red,
    Green,
    Orange,
    Gold,
    Blue,
}

/// One step of colouring a mixed potion, starting from the first input's
/// colour: blend towards a hue, or replace the colour by it.
#[derive(Clone, Copy, Debug, PartialEq, Eq, Structural)]
pub enum TintStep {
    Blend(Hue),
    Replace(Hue),
}

pub open spec fn step_if(present: bool, t: TintStep) -> Seq<TintStep> {
    if present { seq![t] } else { Seq::empty() }
}

/// The colouring step (if any) of the kind at position `k` of the canonical order.
pub open spec fn tint_part(e: EffectSet, k: int) -> Seq<TintStep> {
    if k == 0 {
        step_if(e.heal.is_some(), TintStep::Blend(Hue::Magenta))
    } else if k == 1 {
        step_if(e.teleport.is_some(), TintStep::Blend(Hue::Violet))
    } else if k == 2 {
        step_if(e.confusion.is_some(), TintStep::Blend(Hue::Pink))
    } else if k == 3 {
        step_if(e.harm.is_some(), TintStep::Blend(Hue::DarkRed))
    } else if k == 4 {
        match e.linger {
            Some(l) => seq![TintStep::Blend(if l.etype == LingerType::Fire { Hue::Red } else { Hue::Green })],
            None => Seq::empty(),
        }
    } else if k == 5 {
        step_if(e.explosion.is_some(), TintStep::Blend(Hue::Orange))
    } else if k == 6 {
        step_if(e.invulnerability.is_some(), TintStep::Replace(Hue::Gold))
    } else {
        step_if(e.strength.is_some(), TintStep::Replace(Hue::Blue))
    }
}

/// The colouring steps of the first `k` kinds.
pub open spec fn tint_prefix(e: EffectSet, k: nat) -> Seq<TintStep>
    decreases k,
{
    if k == 0 { Seq::empty() } else { tint_prefix(e, (k - 1) as nat) + tint_part(e, k - 1) }
}

/// The colouring steps of a potion's effects, in canonical kind order.
pub open spec fn tint_steps_spec(e: EffectSet) -> Seq<TintStep> {
    tint_prefix(e, 8)
}

fn push_step(r: &mut Vec<TintStep>, present: bool, t: TintStep)
    ensures
        final(r)@ == old(r)@ + step_if(present, t),
{
    if present {
        r.push(t);
    }
    assert(final(r)@ =~= old(r)@ + step_if(present, t));
}

/// How a potion with effects `e` is coloured, step by step.
pub fn tint_steps(e: &EffectSet) -> (r: Vec<TintStep>)
    ensures
        r@ == tint_steps_spec(*e),
{
    let mut r: Vec<TintStep> = Vec::new();
    assert(r@ =~= tint_prefix(*e, 0));
    push_step(&mut r, e.heal.is_some(), TintStep::Blend(Hue::Magenta));
    assert(r@ == tint_prefix(*e, 1));
    push_step(&mut r, e.teleport.is_some(), TintStep::Blend(Hue::Violet));
    assert(r@ == tint_prefix(*e, 2));
    push_step(&mut r, e.confusion.is_some(), TintStep::Blend(Hue::Pink));
    assert(r@ == tint_prefix(*e, 3));
    push_step(&mut r, e.harm.is_some(), TintStep::Blend(Hue::DarkRed));
    assert(r@ == tint_prefix(*e, 4));
    match e.linger {
        Some(l) => {
            let hue = if l.etype == LingerType::Fire { Hue::Red } else { Hue::Green };
            push_step(&mut r, true, TintStep::Blend(hue));
        },
        None => {
            assert(r@ =~= r@ + Seq::<TintStep>::empty());
        },
    }
    assert(r@ == tint_prefix(*e, 5));
    push_step(&mut r, e.explosion.is_some(), TintStep::Blend(Hue::Orange));
    assert(r@ == tint_prefix(*e, 6));
    push_step(&mut r, e.invulnerability.is_some(), TintStep::Replace(Hue::Gold));
    assert(r@ == tint_prefix(*e, 7));
    push_step(&mut r, e.strength.is_some(), TintStep::Replace(Hue::Blue));
    assert(r@ == tint_prefix(*e, 8));
    r
}

pub open spec fn word_if(present: bool, w: Seq<char>) -> Seq<Seq<char>> {
    if present { seq![w] } else { Seq::empty() }
}

/// The descriptive word (if any) of the kind at position `k` of the canonical order.
pub open spec fn word_part(e: EffectSet, k: int) -> Seq<Seq<char>> {
    if k == 0 {
        word_if(e.heal.is_some(), "Health"@)
    } else if k == 1 {
        word_if(e.teleport.is_some(), "Teleport"@)
    } else if k == 2 {
        word_if(e.confusion.is_some(), "Confusion"@)
    } else if k == 3 {
        word_if(e.harm.is_some(), "Harm"@)
    } else if k == 4 {
        match e.linger {
            Some(l) => seq![if l.etype == LingerType::Fire { "Fire"@ } else { "Poison"@ }],
            None => Seq::empty(),
        }
    } else if k == 5 {
        word_if(e.explosion.is_some(), "Explosion"@)
    } else if k == 6 {
        word_if(e.invulnerability.is_some(), "Invulnerability"@)
    } else {
        word_if(e.strength.is_some(), "Strength"@)
    }
}

/// The descriptive words of the first `k` kinds.
pub open spec fn words_prefix(e: EffectSet, k: nat) -> Seq<Seq<char>>
    decreases k,
{
    if k == 0 { Seq::empty() } else { words_prefix(e, (k - 1) as nat) + word_part(e, k - 1) }
}

/// The descriptive words of a potion's effects, in canonical kind order.
pub open spec fn effect_words(e: EffectSet) -> Seq<Seq<char>> {
    words_prefix(e, 8)
}

/// Words joined by " + ".
pub open spec fn joined(ws: Seq<Seq<char>>) -> Seq<char>
    decreases ws.len(),
{
    if ws.len() == 0 {
        Seq::empty()
    } else if ws.len() == 1 {
        ws[0]
    } else {
        joined(ws.drop_last()) + " + "@ + ws.last()
    }
}

/// The name a mixed potion gets from its effects.
pub open spec fn potion_name_spec(e: EffectSet) -> Seq<char> {
    joined(effect_words(e)) + " potion"@
}

fn push_word_if(name: &mut String, n: usize, Ghost(words): Ghost<Seq<Seq<char>>>, present: bool, w: &str) -> (m: usize)
    requires
        old(name)@ == joined(words),
        n == words.len(),
        n < 8,
    ensures
        final(name)@ == joined(words + word_if(present, w@)),
        m == (words + word_if(present, w@)).len(),
{
    if present {
        assert(words + word_if(present, w@) =~= words.push(w@));
        assert(words.push(w@).drop_last() =~= words);
        if n > 0 {
            name.append(" + ");
        }
        name.append(w);
        n + 1
    } else {
        assert(words + word_if(present, w@) =~= words);
        n
    }
}

/// The name of a mixed potion with effects `e`.
pub fn potion_name(e: &EffectSet) -> (r: String)
    ensures
        r@ == potion_name_spec(*e),
{
    let mut name = String::new();
    let ghost mut words: Seq<Seq<char>> = Seq::empty();
    assert(words =~= words_prefix(*e, 0));
    let mut n: usize = 0;
    n = push_word_if(&mut name, n, Ghost(words), e.heal.is_some(), "Health");
    proof { words = words + word_if(e.heal.is_some(), "Health"@); }
    assert(words == words_prefix(*e, 1));
    n = push_word_if(&mut name, n, Ghost(words), e.teleport.is_some(), "Teleport");
    proof { words = words + word_if(e.teleport.is_some(), "Teleport"@); }
    assert(words == words_prefix(*e, 2));
    n = push_word_if(&mut name, n, Ghost(words), e.confusion.is_some(), "Confusion");
    proof { words = words + word_if(e.confusion.is_some(), "Confusion"@); }
    assert(words == words_prefix(*e, 3));
    n = push_word_if(&mut name, n, Ghost(words), e.harm.is_some(), "Harm");
    proof { words = words + word_if(e.harm.is_some(), "Harm"@); }
    assert(words == words_prefix(*e, 4));
    match e.linger {
        Some(l) => {
            if l.etype == LingerType::Fire {
                n = push_word_if(&mut name, n, Ghost(words), true, "Fire");
                proof { words = words + word_if(true, "Fire"@); }
            } else {
                n = push_word_if(&mut name, n, Ghost(words), true, "Poison");
                proof { words = words + word_if(true, "Poison"@); }
            }
        },
        None => {
            assert(words =~= words + Seq::<Seq<char>>::empty());
        },
    }
    assert(words == words_prefix(*e, 5));
    n = push_word_if(&mut name, n, Ghost(words), e.explosion.is_some(), "Explosion");
    proof { words = words + word_if(e.explosion.is_some(), "Explosion"@); }
    assert(words == words_prefix(*e, 6));
    n = push_word_if(&mut name, n, Ghost(words), e.invulnerability.is_some(), "Invulnerability");
    proof { words = words + word_if(e.invulnerability.is_some(), "Invulnerability"@); }
    assert(words == words_prefix(*e, 7));
    push_word_if(&mut name, n, Ghost(words), e.strength.is_some(), "Strength");
    proof { words = words + word_if(e.strength.is_some(), "Strength"@); }
    assert(words == words_prefix(*e, 8));
    name.append(" potion");
    name
}

/// The blast a violent mix stages on the player.
pub const MIX_BLAST_DAMAGE: i32 = 20;
pub const MIX_BLAST_RADIUS: i32 = 5;

pub open spec fn is_potion(e: EntityData) -> bool {
    e.alive && e.potion
}

/// An item's weight, one when it has none.
pub open spec fn weight_of(e: EntityData) -> int {
    match e.weight {
        Some(w) => w.0 as int,
        None => 1,
    }
}

/// The potion a mix creates, in the backpack of `owner`.
pub open spec fn mixed_potion(effects: EffectSet, weight: int, owner: usize) -> EntityData {
    EntityData {
        effects,
        item: true,
        consumable: true,
        potion: true,
        weight: Some(Weight(weight as i32)),
        in_backpack: Some(InBackpack { owner }),
        ..EntityData::blank_spec()
    }
}

/// What a mix needs to be carried out without overflow.
pub open spec fn mix_ok(w: WorldState, m: WantsToMixPotions, table: Map<u8, PotionEffect>) -> bool {
    let a = w.entities[m.first as int];
    let b = w.entities[m.second as int];
    &&& m.first < w.entities.len()
    &&& m.second < w.entities.len()
    &&& w.player < w.entities.len()
    &&& w.entities.len() + 1 < usize::MAX
    &&& w.names.len() == w.entities.len()
    &&& (is_potion(a) && is_potion(b) && !violent(a.effects, b.effects)) ==> {
        &&& fits_i32(weight_of(a) + weight_of(b))
        &&& !table.contains_key(mix_key(a.effects, b.effects)) ==> mergeable(a.effects, b.effects)
    }
}

/// One mix. Unless both inputs are potions it is refused with a message and
/// nothing else changes. Otherwise both inputs are destroyed; healing with
/// harm stages a blast on the player and makes nothing, and any other pair
/// makes one new potion in the player's backpack.
pub open spec fn mix_step(w: WorldState, m: WantsToMixPotions, table: Map<u8, PotionEffect>) -> WorldState {
    let a = w.entities[m.first as int];
    let b = w.entities[m.second as int];
    if !(is_potion(a) && is_potion(b)) {
        WorldState { log: w.log.push(LogEntry::CannotMix), ..w }
    } else {
        let e1 = w.entities.update(m.first as int, EntityData { alive: false, ..a });
        let e2 = e1.update(m.second as int, EntityData { alive: false, ..e1[m.second as int] });
        if violent(a.effects, b.effects) {
            let p = e2[w.player as int];
            let blast = Explosion { maxdmg: MIX_BLAST_DAMAGE, radius: MIX_BLAST_RADIUS };
            WorldState {
                entities: e2.update(
                    w.player as int,
                    EntityData { effects: EffectSet { explosion: Some(blast), ..p.effects }, ..p },
                ),
                log: w.log.push(LogEntry::MixExplodes),
                ..w
            }
        } else {
            let effects = mixed_effects(a.effects, b.effects, table);
            WorldState {
                entities: e2.push(mixed_potion(effects, weight_of(a) + weight_of(b), w.player)),
                names: w.names.push(potion_name_spec(effects)),
                ..w
            }
        }
    }
}

fn weight_or_one(e: &EntityData) -> (r: i32)
    ensures
        r == weight_of(*e),
{
    match e.weight {
        Some(w) => w.0,
        None => 1,
    }
}

impl World {
    /// Carries out one mix under `table`; returns the new potion's id, if one
    /// was made.
    pub fn mix(&mut self, m: WantsToMixPotions, table: &ComboTable) -> (r: Option<usize>)
        requires
            mix_ok(old(self)@, m, table@),
        ensures
            final(self)@ == mix_step(old(self)@, m, table@),
            final(self).wf(),
            r == (if final(self)@.entities.len() > old(self)@.entities.len() {
                Some(old(self)@.entities.len() as usize)
            } else {
                None
            }),
    {
        let a = self.entities[m.first];
        let b = self.entities[m.second];
        if !(a.alive && a.potion && b.alive && b.potion) {
            self.log.push(LogEntry::CannotMix);
            assert(self@ =~= mix_step(old(self)@, m, table@));
            return None;
        }
        self.entities.set(m.first, EntityData { alive: false, ..a });
        let b2 = self.entities[m.second];
        self.entities.set(m.second, EntityData { alive: false, ..b2 });
        let violent_mix = (a.effects.heal.is_some() && b.effects.harm.is_some())
            || (a.effects.harm.is_some() && b.effects.heal.is_some());
        if violent_mix {
            self.log.push(LogEntry::MixExplodes);
            let p = self.entities[self.player];
            let blast = Explosion { maxdmg: MIX_BLAST_DAMAGE, radius: MIX_BLAST_RADIUS };
            self.entities.set(
                self.player,
                EntityData { effects: EffectSet { explosion: Some(blast), ..p.effects }, ..p },
            );
            assert(self@ =~= mix_step(old(self)@, m, table@));
            None
        } else {
            let effects = mix_effects(&a.effects, &b.effects, table);
            let weight = weight_or_one(&a) + weight_or_one(&b);
            let name = potion_name(&effects);
            let mut potion = EntityData::blank();
            potion.effects = effects;
            potion.item = true;
            potion.consumable = true;
            potion.potion = true;
            potion.weight = Some(Weight(weight));
            potion.in_backpack = Some(InBackpack { owner: self.player });
            let id = self.spawn(potion, name);
            assert(self@ =~= mix_step(old(self)@, m, table@));
            Some(id)
        }
    }
}

/// A run of mixes, in order.
pub open spec fn mix_all(w: WorldState, ms: Seq<WantsToMixPotions>, table: Map<u8, PotionEffect>) -> WorldState
    decreases ms.len(),
{
    if ms.len() == 0 {
        w
    } else {
        mix_step(mix_all(w, ms.drop_last(), table), ms.last(), table)
    }
}

fn sum_fits(a: Option<i32>, b: Option<i32>) -> (r: bool)
    ensures
        r == (a.is_some() && b.is_some() ==> fits_i32(a.unwrap() + b.unwrap())),
{
    match (a, b) {
        (Some(x), Some(y)) => {
            let t = x as i64 + y as i64;
            i32::MIN as i64 <= t && t <= i32::MAX as i64
        },
        _ => true,
    }
}

fn heal_amount_of(e: &EffectSet) -> (r: Option<i32>)
    ensures
        r == (match e.heal { Some(h) => Some(h.heal_amount), None => None }),
{
    match e.heal { Some(h) => Some(h.heal_amount), None => None }
}

/// Whether every sum that merging `a` with `b` computes fits in an `i32`.
pub fn can_merge(a: &EffectSet, b: &EffectSet) -> (r: bool)
    ensures
        r == mergeable(*a, *b),
{
    let heal = sum_fits(heal_amount_of(a), heal_amount_of(b));
    let confusion = sum_fits(
        match a.confusion { Some(c) => Some(c.turns), None => None },
        match b.confusion { Some(c) => Some(c.turns), None => None },
    );
    let harm = sum_fits(
        match a.harm { Some(h) => Some(h.dmg), None => None },
        match b.harm { Some(h) => Some(h.dmg), None => None },
    );
    let linger = sum_fits(
        match a.linger { Some(l) => Some(l.duration), None => None },
        match b.linger { Some(l) => Some(l.duration), None => None },
    );
    let explosion = sum_fits(
        match a.explosion { Some(x) => Some(x.maxdmg), None => None },
        match b.explosion { Some(x) => Some(x.maxdmg), None => None },
    );
    heal && confusion && harm && linger && explosion
}

impl World {
    /// Whether mix `m` can be carried out under `table`.
    pub fn can_mix(&self, m: WantsToMixPotions, table: &ComboTable) -> (r: bool)
        ensures
            r == mix_ok(self@, m, table@),
    {
        let n = self.entities.len();
        assert(self@.names.len() == self.names@.len());
        if !(m.first < n && m.second < n && self.player < n && n < usize::MAX - 1 && self.names.len() == n) {
            return false;
        }
        let a = self.entities[m.first];
        let b = self.entities[m.second];
        let violent_mix = (a.effects.heal.is_some() && b.effects.harm.is_some())
            || (a.effects.harm.is_some() && b.effects.heal.is_some());
        if a.alive && a.potion && b.alive && b.potion && !violent_mix {
            let w = weight_or_one(&a) as i64 + weight_or_one(&b) as i64;
            let weight_fits = i32::MIN as i64 <= w && w <= i32::MAX as i64;
            let special = table.get(a.effects.mask() | b.effects.mask()).is_some();
            weight_fits && (special || can_merge(&a.effects, &b.effects))
        } else {
            true
        }
    }
}

/// The mixing system.
pub struct AlchemySystem {}

impl AlchemySystem {
    /// Carries out the mix requests in order under the combo table of
    /// `seed`, stopping before the first one that cannot be carried out (an
    /// unknown entity, or a sum too large for an `i32`). Returns how many
    /// were carried out.
    pub fn run(&mut self, world: &mut World, intents: &Vec<WantsToMixPotions>, seed: u64) -> (done: usize)
        ensures
            done <= intents@.len(),
            final(world)@ == mix_all(old(world)@, intents@.subrange(0, done as int), combo_table_for(seed)),
            done < intents@.len() ==> !mix_ok(final(world)@, intents@[done as int], combo_table_for(seed)),
    {
        let table = generate_combos(seed);
        let mut i: usize = 0;
        while i < intents.len()
            invariant
                i <= intents@.len(),
                table@ == combo_table_for(seed),
                world@ == mix_all(old(world)@, intents@.subrange(0, i as int), table@),
            decreases intents@.len() - i,
        {
            if !world.can_mix(intents[i], &table) {
                return i;
            }
            assert(intents@.subrange(0, i + 1).drop_last() =~= intents@.subrange(0, i as int));
            world.mix(intents[i], &table);
            i = i + 1;
        }
        i
    }
}

/// Two potions that can be mixed in `w`, neither of them violent with the
/// other, whose kind masks have no entry in `table`.
pub open spec fn plain_mix(w: WorldState, m: WantsToMixPotions, table: Map<u8, PotionEffect>) -> bool {
    let a = w.entities[m.first as int];
    let b = w.entities[m.second as int];
    &&& m.first < w.entities.len()
    &&& m.second < w.entities.len()
    &&& is_potion(a)
    &&& is_potion(b)
    &&& !violent(a.effects, b.effects)
    &&& !table.contains_key(mix_key(a.effects, b.effects))
}

/// Mixing a healing potion of `x` with one of `y`, outside the special
/// cases, makes one potion that heals `x + y`.
pub proof fn lemma_mix_heals_add(w: WorldState, m: WantsToMixPotions, table: Map<u8, PotionEffect>)
    requires
        plain_mix(w, m, table),
        w.entities[m.first as int].effects.heal.is_some(),
        w.entities[m.second as int].effects.heal.is_some(),
    ensures
        ({
            let x = w.entities[m.first as int].effects.heal.unwrap().heal_amount;
            let y = w.entities[m.second as int].effects.heal.unwrap().heal_amount;
            let r = mix_step(w, m, table);
            &&& r.entities.len() == w.entities.len() + 1
            &&& r.entities.last().effects.heal == Some(ProvidesHealing { heal_amount: (x + y) as i32 })
        }),
{
}

/// Mixing harm `d1` with harm `d2`, outside the special cases, makes harm
/// `round((d1 + d2) * 0.6)`, whichever potion comes first.
pub proof fn lemma_mix_harms_diminish(w: WorldState, m: WantsToMixPotions, table: Map<u8, PotionEffect>)
    requires
        plain_mix(w, m, table),
        w.entities[m.first as int].effects.harm.is_some(),
        w.entities[m.second as int].effects.harm.is_some(),
    ensures
        ({
            let d1 = w.entities[m.first as int].effects.harm.unwrap().dmg;
            let d2 = w.entities[m.second as int].effects.harm.unwrap().dmg;
            let swapped = WantsToMixPotions { first: m.second, second: m.first };
            let r = mix_step(w, m, table);
            let s = mix_step(w, swapped, table);
            &&& r.entities.last().effects.harm == Some(InstantHarm { dmg: diminished(d1 + d2) as i32 })
            &&& s.entities.last().effects.harm == r.entities.last().effects.harm
        }),
{
    let a = w.entities[m.first as int].effects;
    let b = w.entities[m.second as int].effects;
    let x = a.mask_spec();
    let y = b.mask_spec();
    assert(x | y == y | x) by (bit_vector);
}

/// Mixing a potion that heals with one that harms destroys both, makes no
/// potion and stages a blast on the player, whatever else either carries.
pub proof fn lemma_violent_mix_explodes(w: WorldState, m: WantsToMixPotions, table: Map<u8, PotionEffect>)
    requires
        m.first < w.entities.len(),
        m.second < w.entities.len(),
        w.player < w.entities.len(),
        is_potion(w.entities[m.first as int]),
        is_potion(w.entities[m.second as int]),
        violent(w.entities[m.first as int].effects, w.entities[m.second as int].effects),
    ensures
        ({
            let r = mix_step(w, m, table);
            &&& r.entities.len() == w.entities.len()
            &&& !r.entities[m.first as int].alive
            &&& !r.entities[m.second as int].alive
            &&& r.entities[w.player as int].effects.explosion
                == Some(Explosion { maxdmg: MIX_BLAST_DAMAGE, radius: MIX_BLAST_RADIUS })
            &&& r.names == w.names
        }),
{
}

/// Mixing fire with poison, outside the special cases, lingers as fire.
pub proof fn lemma_mix_fire_dominates(w: WorldState, m: WantsToMixPotions, table: Map<u8, PotionEffect>)
    requires
        plain_mix(w, m, table),
        w.entities[m.first as int].effects.linger.is_some(),
        w.entities[m.second as int].effects.linger.is_some(),
        w.entities[m.first as int].effects.linger.unwrap().etype
            != w.entities[m.second as int].effects.linger.unwrap().etype,
    ensures
        mix_step(w, m, table).entities.last().effects.linger.unwrap().etype == LingerType::Fire,
{
}

} // verus!
