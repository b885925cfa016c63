//! Weighted tables of what a room can spawn.

use vstd::prelude::*;
use crate::dice::roll_die;

verus! {

#[derive(Clone, Copy, Debug, PartialEq, Eq, Structural)]
pub enum SpawnEntry {
    Nothing,
    Goblin,
    Ork,
    HealingPotion,
    FireballScroll,
    ConfusionScroll,
    TeleportScroll,
    MissileScroll,
}

/// One outcome of a table and its weight.
#[derive(Clone, Copy, Debug, PartialEq, Eq, Structural)]
pub struct RandomEntry {
    name: SpawnEntry,
    weight: i32,
}

impl RandomEntry {
    pub closed spec fn name_spec(&self) -> SpawnEntry {
        self.name
    }

    pub closed spec fn weight_spec(&self) -> i32 {
        self.weight
    }

    pub fn new(name: SpawnEntry, weight: i32) -> (r: RandomEntry)
        ensures
            r.name_spec() == name,
            r.weight_spec() == weight,
    {
        RandomEntry { name, weight }
    }
}

/// The sum of the weights of `es`.
pub open spec fn weight_sum(es: Seq<RandomEntry>) -> int
    decreases es.len(),
{
    if es.len() == 0 { 0 } else { weight_sum(es.drop_last()) + es.last().weight_spec() }
}

proof fn lemma_weight_sum_nonneg(es: Seq<RandomEntry>)
    requires
        forall|i: int| 0 <= i < es.len() ==> es[i].weight_spec() >= 0,
    ensures
        weight_sum(es) >= 0,
    decreases es.len(),
{
    if es.len() > 0 {
        lemma_weight_sum_nonneg(es.drop_last());
    }
}

/// The outcome of a roll of `roll` (counted from zero) from entry `idx` on:
/// walk the entries, taking the one whose weight exceeds what is left of the
/// roll. A roll of zero, or one past the end, gives nothing.
pub open spec fn pick_spec(es: Seq<RandomEntry>, roll: int, idx: int) -> SpawnEntry
    decreases es.len() - idx,
{
    if roll <= 0 || idx < 0 || idx >= es.len() {
        SpawnEntry::Nothing
    } else if roll < es[idx].weight_spec() {
        es[idx].name_spec()
    } else {
        pick_spec(es, roll - es[idx].weight_spec(), idx + 1)
    }
}

/// A weighted table of outcomes.
pub struct RandomTable {
    entries: Vec<RandomEntry>,
    total_weight: i32,
}

impl RandomTable {
    pub closed spec fn entries_spec(&self) -> Seq<RandomEntry> {
        self.entries@
    }

    pub closed spec fn total_spec(&self) -> int {
        self.total_weight as int
    }

    /// `total_weight` is the sum of the weights.
    pub closed spec fn wf(&self) -> bool {
        self.total_weight == weight_sum(self.entries@)
    }

    /// No weight is negative: what rolling the table needs.
    pub closed spec fn nonneg(&self) -> bool {
        forall|i: int| 0 <= i < self.entries@.len() ==> self.entries@[i].weight_spec() >= 0
    }

    pub fn new() -> (r: RandomTable)
        ensures
            r.wf(),
            r.nonneg(),
            r.entries_spec() == Seq::<RandomEntry>::empty(),
            r.total_spec() == 0,
    {
        RandomTable { entries: Vec::new(), total_weight: 0 }
    }

    /// The table with one more outcome.
    pub fn add(self, name: SpawnEntry, weight: i32) -> (r: RandomTable)
        requires
            self.wf(),
            i32::MIN <= self.total_spec() + weight <= i32::MAX,
        ensures
            r.wf(),
            r.nonneg() == (self.nonneg() && weight >= 0),
            r.entries_spec().len() == self.entries_spec().len() + 1,
            r.entries_spec().drop_last() == self.entries_spec(),
            r.entries_spec().last().name_spec() == name,
            r.entries_spec().last().weight_spec() == weight,
            r.total_spec() == self.total_spec() + weight,
    {
        let mut t = self;
        t.total_weight = t.total_weight + weight;
        t.entries.push(RandomEntry::new(name, weight));
        assert(t.entries@.drop_last() =~= self.entries@);
        assert(t.nonneg() == (self.nonneg() && weight >= 0)) by {
            if !(self.nonneg() && weight >= 0) {
                if weight < 0 {
                    assert(t.entries@[t.entries@.len() - 1].weight_spec() < 0);
                } else {
                    let i = choose|i: int| 0 <= i < self.entries@.len() && self.entries@[i].weight_spec() < 0;
                    assert(t.entries@[i] == self.entries@[i]);
                }
            }
        }
        t
    }

    /// The outcome of a roll of `roll`, counted from zero.
    pub fn pick(&self, roll: i32) -> (r: SpawnEntry)
        requires
            self.wf(),
            self.nonneg(),
            0 <= roll < self.total_spec(),
        ensures
            r == pick_spec(self.entries_spec(), roll as int, 0),
    {
        let mut left = roll;
        let mut index: usize = 0;
        while left > 0
            invariant
                0 <= left <= roll,
                index <= self.entries@.len(),
                self.wf(),
                self.nonneg(),
                pick_spec(self.entries@, left as int, index as int) == pick_spec(self.entries@, roll as int, 0),
            decreases self.entries@.len() - index,
        {
            if index >= self.entries.len() {
                return SpawnEntry::Nothing;
            }
            let e = self.entries[index];
            if left < e.weight {
                return e.name;
            }
            left = left - e.weight;
            index = index + 1;
        }
        SpawnEntry::Nothing
    }

    /// Rolls the table: nothing from an empty one; otherwise the outcome of
    /// a uniform roll below the total weight.
    pub fn roll(&self, rng: &mut rltk::RandomNumberGenerator) -> (r: SpawnEntry)
        requires
            self.wf(),
            self.nonneg(),
            self.total_spec() < i32::MAX,
        ensures
            self.total_spec() == 0 ==> r == SpawnEntry::Nothing,
            self.total_spec() > 0 ==> exists|n: int| 0 <= n < self.total_spec()
                && r == #[trigger] pick_spec(self.entries_spec(), n, 0),
    {
        if self.total_weight == 0 {
            return SpawnEntry::Nothing;
        }
        proof {
            lemma_weight_sum_nonneg(self.entries@);
        }
        let n = roll_die(rng, self.total_weight) - 1;
        self.pick(n)
    }
}

} // verus!
