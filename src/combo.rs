//! The combo table: a seed-derived mapping from the union of two potions'
//! kind masks to a single special effect that replaces everything mixed.

use rand::seq::SliceRandom;
use rand::SeedableRng;
use vstd::prelude::*;
use crate::effects::{
    Invulnerability, PotionEffect, ProvidesHealing, Strength, TELEPORT_BIT,
};

verus! {

/// What `SliceRandom::shuffle` leaves in `kinds` when drawn from an `StdRng`
/// seeded with `seed`.
pub uninterp spec fn seeded_order(seed: u64, kinds: Seq<u8>) -> Seq<u8>;

/// What `SliceRandom::choose_multiple` then picks, two entries of `pool`,
/// drawn from the same generator right after the shuffle.
pub uninterp spec fn seeded_pair(seed: u64, kinds: Seq<u8>, pool: Seq<u8>) -> Seq<u8>;

/// Relies on rand 0.8: `StdRng::seed_from_u64` (a generator that depends on the
/// seed alone), `SliceRandom::shuffle` (a permutation of `kinds`) and
/// `SliceRandom::choose_multiple` (`min(amount, len)` entries of `pool` at
/// distinct positions, through `index::sample`, so distinct entries when
/// `pool` has no duplicates), the last two drawing from
/// that generator in turn.
#[verifier::external_body]
fn seeded_draws(seed: u64, kinds: &Vec<u8>, pool: &Vec<u8>) -> (r: (Vec<u8>, Vec<u8>))
    ensures
        r.0@ == seeded_order(seed, kinds@),
        r.0@.to_multiset() == kinds@.to_multiset(),
        forall|x: u8| r.0@.contains(x) <==> kinds@.contains(x),
        kinds@.no_duplicates() ==> r.0@.no_duplicates(),
        r.1@ == seeded_pair(seed, kinds@, pool@),
        r.1@.len() == if pool@.len() < 2 { pool@.len() } else { 2 },
        pool@.len() >= 2 ==> pool@.contains(r.1@[0]) && pool@.contains(r.1@[1]),
        pool@.len() >= 2 && pool@.no_duplicates() ==> r.1@[0] != r.1@[1],
{
    let mut rng = rand::rngs::StdRng::seed_from_u64(seed);
    let mut order = kinds.clone();
    order.shuffle(&mut rng);
    let pair: Vec<u8> = pool.choose_multiple(&mut rng, 2).copied().collect();
    (order, pair)
}

/// The kinds that a combo can be keyed on: every ordinary kind but healing.
pub open spec fn combo_kinds() -> Seq<u8> {
    seq![2u8, 4u8, 8u8, 16u8, 32u8]
}

/// Those kinds but teleport: the kinds a stronger heal is keyed on.
pub open spec fn heal_pool() -> Seq<u8> {
    seq![4u8, 8u8, 16u8, 32u8]
}

/// The bit of a combo kind other than teleport.
pub open spec fn elemental(k: u8) -> bool {
    k == 4 || k == 8 || k == 16 || k == 32
}

/// The entries of `s` other than the teleport bit, in order.
pub open spec fn non_teleport(s: Seq<u8>) -> Seq<u8>
    decreases s.len(),
{
    if s.len() == 0 {
        Seq::empty()
    } else if s.last() == TELEPORT_BIT {
        non_teleport(s.drop_last())
    } else {
        non_teleport(s.drop_last()).push(s.last())
    }
}

/// The table built from a shuffled order of the combo kinds and a pair drawn
/// from the kinds other than teleport: the first two non-teleport kinds of
/// the order, each joined with teleport, give invulnerability and strength;
/// the pair gives a stronger heal.
pub open spec fn combo_table_of(order: Seq<u8>, pair: Seq<u8>) -> Map<u8, PotionEffect> {
    let others = non_teleport(order);
    Map::<u8, PotionEffect>::empty()
        .insert(others[0] | TELEPORT_BIT, PotionEffect::Invulnerability(Invulnerability { turns: 3 }))
        .insert(others[1] | TELEPORT_BIT, PotionEffect::Strength(Strength { turns: 3 }))
        .insert(pair[0] | pair[1], PotionEffect::Heal(ProvidesHealing { heal_amount: 3 }))
}

/// A table with exactly three entries: invulnerability under `k1 | 2`,
/// strength under `k2 | 2`, and a heal of three under `p | q`, for distinct
/// non-teleport kinds `k1`, `k2` and distinct non-teleport kinds `p`, `q`.
pub open spec fn combo_shape(m: Map<u8, PotionEffect>, k1: u8, k2: u8, p: u8, q: u8) -> bool {
    &&& elemental(k1) && elemental(k2) && k1 != k2
    &&& elemental(p) && elemental(q) && p != q
    &&& (k1 | TELEPORT_BIT) != (k2 | TELEPORT_BIT)
    &&& (k1 | TELEPORT_BIT) != (p | q)
    &&& (k2 | TELEPORT_BIT) != (p | q)
    &&& m.dom() == set![k1 | TELEPORT_BIT, k2 | TELEPORT_BIT, p | q]
    &&& m[k1 | TELEPORT_BIT] == PotionEffect::Invulnerability(Invulnerability { turns: 3 })
    &&& m[k2 | TELEPORT_BIT] == PotionEffect::Strength(Strength { turns: 3 })
    &&& m[p | q] == PotionEffect::Heal(ProvidesHealing { heal_amount: 3 })
}

proof fn lemma_key_bits(k1: u8, k2: u8, p: u8, q: u8)
    requires
        k1 == 4 || k1 == 8 || k1 == 16 || k1 == 32,
        k2 == 4 || k2 == 8 || k2 == 16 || k2 == 32,
        p == 4 || p == 8 || p == 16 || p == 32,
        q == 4 || q == 8 || q == 16 || q == 32,
        k1 != k2,
    ensures
        (k1 | 2) != (k2 | 2),
        (k1 | 2) != (p | q),
        (k2 | 2) != (p | q),
{
    assert((k1 | 2) != (k2 | 2)) by (bit_vector)
        requires
            k1 == 4 || k1 == 8 || k1 == 16 || k1 == 32,
            k2 == 4 || k2 == 8 || k2 == 16 || k2 == 32,
            k1 != k2;
    assert((k1 | 2) != (p | q) && (k2 | 2) != (p | q)) by (bit_vector)
        requires
            k1 == 4 || k1 == 8 || k1 == 16 || k1 == 32,
            k2 == 4 || k2 == 8 || k2 == 16 || k2 == 32,
            p == 4 || p == 8 || p == 16 || p == 32,
            q == 4 || q == 8 || q == 16 || q == 32;
}

proof fn lemma_non_teleport(s: Seq<u8>)
    ensures
        forall|k: int| 0 <= k < non_teleport(s).len() ==> s.contains(#[trigger] non_teleport(s)[k])
            && non_teleport(s)[k] != TELEPORT_BIT,
        forall|x: u8| s.contains(x) && x != TELEPORT_BIT ==> #[trigger] non_teleport(s).contains(x),
        s.no_duplicates() ==> non_teleport(s).no_duplicates(),
    decreases s.len(),
{
    if s.len() > 0 {
        let t = s.drop_last();
        lemma_non_teleport(t);
        let n = non_teleport(s);
        let m = non_teleport(t);
        assert forall|k: int| 0 <= k < n.len() implies s.contains(#[trigger] n[k]) && n[k] != TELEPORT_BIT by {
            if k < m.len() {
                assert(n[k] == m[k]);
                let i = choose|i: int| 0 <= i < t.len() && t[i] == m[k];
                assert(s[i] == t[i]);
            } else {
                assert(s[s.len() - 1] == n[k]);
            }
        }
        assert forall|x: u8| s.contains(x) && x != TELEPORT_BIT implies #[trigger] n.contains(x) by {
            let i = choose|i: int| 0 <= i < s.len() && s[i] == x;
            if i < s.len() - 1 {
                assert(t[i] == x);
                assert(t.contains(x));
                assert(m.contains(x));
                let k = choose|k: int| 0 <= k < m.len() && m[k] == x;
                assert(n[k] == x);
            } else {
                assert(n[n.len() - 1] == x);
            }
        }
        if s.no_duplicates() {
            assert(t.no_duplicates());
            if s.last() != TELEPORT_BIT {
                assert forall|a: int, b: int| 0 <= a < n.len() && 0 <= b < n.len() && a != b implies n[a] != n[b] by {
                    if a < m.len() && b < m.len() {
                    } else if a < m.len() {
                        let i = choose|i: int| 0 <= i < t.len() && t[i] == m[a];
                        assert(s[i] == m[a]);
                        assert(s[s.len() - 1] == n[b]);
                    } else if b < m.len() {
                        let i = choose|i: int| 0 <= i < t.len() && t[i] == m[b];
                        assert(s[i] == m[b]);
                        assert(s[s.len() - 1] == n[a]);
                    }
                }
            }
        }
    }
}

/// The combo table of a seed.
pub open spec fn combo_table_for(seed: u64) -> Map<u8, PotionEffect> {
    combo_table_of(seeded_order(seed, combo_kinds()), seeded_pair(seed, combo_kinds(), heal_pool()))
}

/// The map that a list of entries stands for: a later entry replaces an
/// earlier one with the same key.
pub open spec fn table_map(s: Seq<(u8, PotionEffect)>) -> Map<u8, PotionEffect>
    decreases s.len(),
{
    if s.len() == 0 {
        Map::empty()
    } else {
        table_map(s.drop_last()).insert(s.last().0, s.last().1)
    }
}

proof fn lemma_table_map_prefix(s: Seq<(u8, PotionEffect)>, i: int, k: u8)
    requires
        0 <= i <= s.len(),
        forall|j: int| i <= j < s.len() ==> s[j].0 != k,
    ensures
        table_map(s).contains_key(k) == table_map(s.subrange(0, i)).contains_key(k),
        table_map(s).contains_key(k) ==> table_map(s)[k] == table_map(s.subrange(0, i))[k],
    decreases s.len() - i,
{
    if i < s.len() {
        lemma_table_map_prefix(s.drop_last(), i, k);
        assert(s.drop_last().subrange(0, i) =~= s.subrange(0, i));
    } else {
        assert(s.subrange(0, i) =~= s);
    }
}

/// A mapping from kind masks to special effects.
pub struct ComboTable {
    pub entries: Vec<(u8, PotionEffect)>,
}

impl View for ComboTable {
    type V = Map<u8, PotionEffect>;

    open spec fn view(&self) -> Map<u8, PotionEffect> {
        table_map(self.entries@)
    }
}

impl ComboTable {
    pub fn new() -> (r: ComboTable)
        ensures
            r@ == Map::<u8, PotionEffect>::empty(),
    {
        ComboTable { entries: Vec::new() }
    }

    /// Maps `key` to `effect`, replacing what it mapped to before.
    pub fn insert(&mut self, key: u8, effect: PotionEffect)
        ensures
            final(self)@ == old(self)@.insert(key, effect),
    {
        self.entries.push((key, effect));
        assert(self.entries@.drop_last() =~= old(self).entries@);
    }

    /// The special effect that `key` maps to, if any.
    pub fn get(&self, key: u8) -> (r: Option<PotionEffect>)
        ensures
            r == (if self@.contains_key(key) { Some(self@[key]) } else { None }),
    {
        let mut i: usize = self.entries.len();
        while i > 0
            invariant
                i <= self.entries@.len(),
                forall|j: int| i <= j < self.entries@.len() ==> self.entries@[j].0 != key,
            decreases i,
        {
            let (k, e) = self.entries[i - 1];
            if k == key {
                proof {
                    let s = self.entries@;
                    lemma_table_map_prefix(s, i as int, key);
                    assert(s.subrange(0, i as int).drop_last() =~= s.subrange(0, i - 1));
                }
                return Some(e);
            }
            i = i - 1;
        }
        proof {
            lemma_table_map_prefix(self.entries@, 0, key);
        }
        None
    }
}

/// Builds the combo table of `seed`: the same seed always gives the same
/// table, and it always holds exactly the invulnerability, strength and
/// stronger-heal entries.
pub fn generate_combos(seed: u64) -> (r: ComboTable)
    ensures
        r@ == combo_table_for(seed),
        exists|k1: u8, k2: u8, p: u8, q: u8| #[trigger] combo_shape(r@, k1, k2, p, q),
{
    let kinds: Vec<u8> = vec![2u8, 4u8, 8u8, 16u8, 32u8];
    let pool: Vec<u8> = vec![4u8, 8u8, 16u8, 32u8];
    assert(kinds@ == combo_kinds());
    assert(pool@ == heal_pool());
    assert(kinds@.no_duplicates());
    let (order, pair) = seeded_draws(seed, &kinds, &pool);
    let mut others: Vec<u8> = Vec::new();
    let mut i: usize = 0;
    while i < order.len()
        invariant
            i <= order@.len(),
            others@ == non_teleport(order@.subrange(0, i as int)),
        decreases order@.len() - i,
    {
        assert(order@.subrange(0, i + 1).drop_last() =~= order@.subrange(0, i as int));
        if order[i] != TELEPORT_BIT {
            others.push(order[i]);
        }
        i = i + 1;
    }
    assert(order@.subrange(0, i as int) =~= order@);
    proof {
        lemma_non_teleport(order@);
        assert(kinds@[1] == 4u8 && kinds@[2] == 8u8);
        assert(kinds@.contains(4u8) && kinds@.contains(8u8));
        assert(order@.contains(4u8) && order@.contains(8u8));
        assert(others@.contains(4u8) && others@.contains(8u8));
        let a = choose|a: int| 0 <= a < others@.len() && others@[a] == 4u8;
        let b = choose|b: int| 0 <= b < others@.len() && others@[b] == 8u8;
        assert(a != b);
        assert(others@.len() >= 2);
        assert(order@.contains(others@[0]) && order@.contains(others@[1]));
        assert(kinds@.contains(others@[0]) && kinds@.contains(others@[1]));
        assert(others@[0] != others@[1]);
    }
    let k1 = others[0];
    let k2 = others[1];
    let p = pair[0];
    let q = pair[1];
    proof {
        let ki = choose|ki: int| 0 <= ki < kinds@.len() && kinds@[ki] == k1;
        let kj = choose|kj: int| 0 <= kj < kinds@.len() && kinds@[kj] == k2;
        assert(elemental(k1) && elemental(k2));
        assert(pool@.no_duplicates());
        let pi = choose|i: int| 0 <= i < pool@.len() && pool@[i] == p;
        let pj = choose|j: int| 0 <= j < pool@.len() && pool@[j] == q;
        assert(elemental(p) && elemental(q) && p != q);
        lemma_key_bits(k1, k2, p, q);
    }
    let mut table = ComboTable::new();
    table.insert(k1 | TELEPORT_BIT, PotionEffect::Invulnerability(Invulnerability { turns: 3 }));
    table.insert(k2 | TELEPORT_BIT, PotionEffect::Strength(Strength { turns: 3 }));
    table.insert(p | q, PotionEffect::Heal(ProvidesHealing { heal_amount: 3 }));
    proof {
        assert(table@.dom() =~= set![k1 | TELEPORT_BIT, k2 | TELEPORT_BIT, p | q]);
        assert(combo_shape(table@, k1, k2, p, q));
    }
    table
}

/// A combo table is a function of its seed: building it twice from one seed
/// gives the same table.
pub proof fn lemma_combo_table_deterministic(seed: u64, first: ComboTable, second: ComboTable)
    requires
        first@ == combo_table_for(seed),
        second@ == combo_table_for(seed),
    ensures
        first@ == second@,
{
}

} // verus!
