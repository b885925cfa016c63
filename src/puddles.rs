//! Puddles: ground hazards that re-stage their effects on whatever stands on
//! them, and dry up after a fixed number of phases.

use vstd::prelude::*;
use crate::components::Puddle;
use crate::effects::EffectSet;
use crate::world::{lemma_occupants, occupants_of, stands_on, EntityData, World};

verus! {

/// `target` after a puddle carrying `source` re-stages onto it: each kind
/// the puddle carries is added only where `target` has none pending.
pub open spec fn restage(target: EffectSet, source: EffectSet) -> EffectSet {
    EffectSet {
        heal: if target.heal.is_some() { target.heal } else { source.heal },
        teleport: if target.teleport.is_some() { target.teleport } else { source.teleport },
        confusion: if target.confusion.is_some() { target.confusion } else { source.confusion },
        harm: if target.harm.is_some() { target.harm } else { source.harm },
        linger: if target.linger.is_some() { target.linger } else { source.linger },
        explosion: if target.explosion.is_some() { target.explosion } else { source.explosion },
        invulnerability: if target.invulnerability.is_some() { target.invulnerability } else { source.invulnerability },
        strength: if target.strength.is_some() { target.strength } else { source.strength },
    }
}

fn restage_exec(t: &EffectSet, s: &EffectSet) -> (r: EffectSet)
    ensures
        r == restage(*t, *s),
{
    EffectSet {
        heal: if t.heal.is_some() { t.heal } else { s.heal },
        teleport: if t.teleport.is_some() { t.teleport } else { s.teleport },
        confusion: if t.confusion.is_some() { t.confusion } else { s.confusion },
        harm: if t.harm.is_some() { t.harm } else { s.harm },
        linger: if t.linger.is_some() { t.linger } else { s.linger },
        explosion: if t.explosion.is_some() { t.explosion } else { s.explosion },
        invulnerability: if t.invulnerability.is_some() { t.invulnerability } else { s.invulnerability },
        strength: if t.strength.is_some() { t.strength } else { s.strength },
    }
}

/// A live puddle with a place on the map.
pub open spec fn active_puddle(e: EntityData) -> bool {
    e.alive && e.puddle.is_some() && e.pos.is_some()
}

/// Every live puddle has at least one phase left.
pub open spec fn puddles_wf(ents: Seq<EntityData>) -> bool {
    forall|i: int| 0 <= i < ents.len() && ents[i].alive && #[trigger] ents[i].puddle.is_some()
        ==> ents[i].puddle.unwrap().lifetime >= 1
}

/// The entities after puddle `p` takes its phase: its lifetime drops by one,
/// every other entity on its tile gets its effects re-staged, and the puddle
/// is gone once its lifetime reaches zero.
pub open spec fn puddle_step(ents: Seq<EntityData>, p: int) -> Seq<EntityData> {
    let e = ents[p];
    if !active_puddle(e) {
        ents
    } else {
        let lifetime = e.puddle.unwrap().lifetime - 1;
        Seq::new(
            ents.len(),
            |j: int|
                if j == p {
                    EntityData { puddle: Some(Puddle { lifetime: lifetime as i32 }), alive: lifetime != 0, ..e }
                } else if stands_on(ents[j], e.pos.unwrap()) {
                    EntityData { effects: restage(ents[j].effects, e.effects), ..ents[j] }
                } else {
                    ents[j]
                },
        )
    }
}

/// The first `k` puddle steps of a phase, in id order.
pub open spec fn puddle_steps(ents: Seq<EntityData>, k: nat) -> Seq<EntityData>
    decreases k,
{
    if k == 0 {
        ents
    } else {
        puddle_step(puddle_steps(ents, (k - 1) as nat), k - 1)
    }
}

pub proof fn lemma_puddle_steps_len(ents: Seq<EntityData>, k: nat)
    ensures
        puddle_steps(ents, k).len() == ents.len(),
    decreases k,
{
    if k > 0 {
        lemma_puddle_steps_len(ents, (k - 1) as nat);
    }
}

/// One whole puddle phase.
pub open spec fn puddle_phase(ents: Seq<EntityData>) -> Seq<EntityData> {
    puddle_steps(ents, ents.len())
}

/// `k` puddle phases in a row.
pub open spec fn puddle_phases(ents: Seq<EntityData>, k: nat) -> Seq<EntityData>
    decreases k,
{
    if k == 0 {
        ents
    } else {
        puddle_phase(puddle_phases(ents, (k - 1) as nat))
    }
}

/// The puddle system.
pub struct TrapSystem {}

impl TrapSystem {
    pub fn run(&mut self, world: &mut World)
        requires
            puddles_wf(old(world).entities@),
            old(world).entities@.len() <= usize::MAX,
        ensures
            final(world).entities@ == puddle_phase(old(world).entities@),
            puddles_wf(final(world).entities@),
            final(world).names == old(world).names,
            final(world).suffering == old(world).suffering,
            final(world).log == old(world).log,
            final(world).player == old(world).player,
            final(world).view_pos == old(world).view_pos,
    {
        let n = world.entities.len();
        let mut p: usize = 0;
        while p < n
            invariant
                n == old(world).entities@.len(),
                p <= n,
                world.entities@ == puddle_steps(old(world).entities@, p as nat),
                puddles_wf(world.entities@),
                world.names == old(world).names,
                world.suffering == old(world).suffering,
                world.log == old(world).log,
                world.player == old(world).player,
                world.view_pos == old(world).view_pos,
            decreases n - p,
        {
            proof {
                lemma_puddle_steps_len(old(world).entities@, p as nat);
            }
            step_puddle(world, p);
            p = p + 1;
        }
    }
}

/// Puddle `p` takes its phase.
#[verifier::spinoff_prover]
fn step_puddle(world: &mut World, p: usize)
    requires
        p < old(world).entities@.len(),
        old(world).entities@.len() <= usize::MAX,
        puddles_wf(old(world).entities@),
    ensures
        final(world).entities@ == puddle_step(old(world).entities@, p as int),
        puddles_wf(final(world).entities@),
        final(world).names == old(world).names,
        final(world).suffering == old(world).suffering,
        final(world).log == old(world).log,
        final(world).player == old(world).player,
        final(world).view_pos == old(world).view_pos,
{
    let e = world.entities[p];
    if !(e.alive && e.puddle.is_some() && e.pos.is_some()) {
        return;
    }
    let pos = e.pos.unwrap();
    let lifetime = e.puddle.unwrap().lifetime - 1;
    let ghost orig = world.entities@;
    let occ = world.occupants(pos);
    proof {
        lemma_occupants(orig, pos);
    }
    let mut k: usize = 0;
    while k < occ.len()
        invariant
            k <= occ@.len(),
            p < orig.len() <= usize::MAX,
            occ@ == occupants_of(orig, pos),
            world.entities@.len() == orig.len(),
            orig[p as int] == e,
            active_puddle(e),
            e.pos == Some(pos),
            forall|i: int| 0 <= i < occ@.len() ==> occ@[i] < orig.len() && stands_on(orig[occ@[i] as int], pos),
            forall|j: int| 0 <= j < orig.len() ==> world.entities@[j] == if j != p && occ@.subrange(0, k as int).contains(j as usize) {
                EntityData { effects: restage(orig[j].effects, e.effects), ..orig[j] }
            } else {
                orig[j]
            },
            world.names == old(world).names,
            world.suffering == old(world).suffering,
            world.log == old(world).log,
            world.player == old(world).player,
            world.view_pos == old(world).view_pos,
            orig == old(world).entities@,
        decreases occ@.len() - k,
    {
        let m = occ[k];
        if m != p {
            let t = world.entities[m];
            let staged = restage_exec(&t.effects, &e.effects);
            world.entities.set(m, EntityData { effects: staged, ..t });
        }
        proof {
            assert forall|j: int| 0 <= j < orig.len() implies
                (#[trigger] occ@.subrange(0, k + 1).contains(j as usize) <==> (occ@.subrange(0, k as int).contains(j as usize) || j == m as int)) by {
                if occ@.subrange(0, k + 1).contains(j as usize) {
                    let i = choose|i: int| 0 <= i < k + 1 && #[trigger] occ@.subrange(0, k + 1)[i] == j as usize;
                    if i < k {
                        assert(occ@.subrange(0, k as int)[i] == j as usize);
                    }
                }
                if occ@.subrange(0, k as int).contains(j as usize) {
                    let i = choose|i: int| 0 <= i < k && #[trigger] occ@.subrange(0, k as int)[i] == j as usize;
                    assert(occ@.subrange(0, k + 1)[i] == j as usize);
                }
                if j == m as int {
                    assert(occ@.subrange(0, k + 1)[k as int] == j as usize);
                }
            }
        }
        k = k + 1;
    }
    let mut done = world.entities[p];
    done.puddle = Some(Puddle { lifetime });
    done.alive = lifetime != 0;
    world.entities.set(p, done);
    proof {
        assert(occ@.subrange(0, k as int) =~= occ@);
        let target = puddle_step(orig, p as int);
        assert forall|j: int| 0 <= j < orig.len() implies world.entities@[j] == target[j] by {
            if j != p && stands_on(orig[j], pos) {
                assert(occ@.contains(j as usize));
            }
        }
        assert(world.entities@ =~= target);
    }
}

/// Every effect pending in `a` is still there, unchanged, in `b`.
pub open spec fn keeps_pending(a: EffectSet, b: EffectSet) -> bool {
    &&& a.heal.is_some() ==> b.heal == a.heal
    &&& a.teleport.is_some() ==> b.teleport == a.teleport
    &&& a.confusion.is_some() ==> b.confusion == a.confusion
    &&& a.harm.is_some() ==> b.harm == a.harm
    &&& a.linger.is_some() ==> b.linger == a.linger
    &&& a.explosion.is_some() ==> b.explosion == a.explosion
    &&& a.invulnerability.is_some() ==> b.invulnerability == a.invulnerability
    &&& a.strength.is_some() ==> b.strength == a.strength
}

proof fn lemma_steps_keep_pending(ents: Seq<EntityData>, k: nat, q: int)
    requires
        0 <= q < ents.len(),
    ensures
        keeps_pending(ents[q].effects, puddle_steps(ents, k)[q].effects),
    decreases k,
{
    lemma_puddle_steps_len(ents, k);
    if k > 0 {
        lemma_steps_keep_pending(ents, (k - 1) as nat, q);
        lemma_puddle_steps_len(ents, (k - 1) as nat);
    }
}

/// A puddle never stages a second effect of a kind that an entity already
/// has pending: through a whole puddle phase every pending effect stays as
/// it was.
pub proof fn lemma_puddle_phase_keeps_pending(ents: Seq<EntityData>, q: int)
    requires
        0 <= q < ents.len(),
    ensures
        keeps_pending(ents[q].effects, puddle_phase(ents)[q].effects),
{
    lemma_steps_keep_pending(ents, ents.len(), q);
}

/// What a puddle's own record looks like after the first `k` steps of a
/// phase: untouched before its own step, stepped once after it.
proof fn lemma_steps_own_record(ents: Seq<EntityData>, k: nat, q: int)
    requires
        0 <= q < ents.len(),
        active_puddle(ents[q]),
    ensures
        ({
            let r = puddle_steps(ents, k)[q];
            let lifetime = ents[q].puddle.unwrap().lifetime;
            &&& r.pos == ents[q].pos
            &&& k <= q ==> r.alive == ents[q].alive && r.puddle == ents[q].puddle
            &&& k > q ==> r.alive == (lifetime - 1 != 0) && r.puddle == Some(Puddle { lifetime: (lifetime - 1) as i32 })
        }),
    decreases k,
{
    lemma_puddle_steps_len(ents, k);
    if k > 0 {
        lemma_steps_own_record(ents, (k - 1) as nat, q);
        lemma_puddle_steps_len(ents, (k - 1) as nat);
    }
}

proof fn lemma_puddle_phases_len(ents: Seq<EntityData>, k: nat)
    ensures
        puddle_phases(ents, k).len() == ents.len(),
    decreases k,
{
    if k > 0 {
        lemma_puddle_phases_len(ents, (k - 1) as nat);
        lemma_puddle_steps_len(puddle_phases(ents, (k - 1) as nat), puddle_phases(ents, (k - 1) as nat).len());
    }
}

/// A puddle laid with lifetime `n` has `n - k` phases left after `k`
/// phases, and after exactly `n` phases its lifetime is zero and it no
/// longer exists.
pub proof fn lemma_puddle_lifetime(ents: Seq<EntityData>, p: int, k: nat)
    requires
        0 <= p < ents.len(),
        active_puddle(ents[p]),
        ents[p].puddle.unwrap().lifetime >= 1,
        k <= ents[p].puddle.unwrap().lifetime,
    ensures
        puddle_phases(ents, k)[p].puddle == Some(Puddle { lifetime: (ents[p].puddle.unwrap().lifetime - k) as i32 }),
        puddle_phases(ents, k)[p].alive == (k < ents[p].puddle.unwrap().lifetime),
        puddle_phases(ents, k)[p].pos == ents[p].pos,
    decreases k,
{
    lemma_puddle_phases_len(ents, k);
    if k > 0 {
        let prev = puddle_phases(ents, (k - 1) as nat);
        lemma_puddle_lifetime(ents, p, (k - 1) as nat);
        lemma_puddle_phases_len(ents, (k - 1) as nat);
        lemma_steps_own_record(prev, prev.len(), p);
    }
}

} // verus!
