//! The merge table: the merge rules in the order in which they were learned,
//! and for each merged pair the id that it was merged into.

use crate::pairs::{key_pair, lemma_key_injective, lemma_key_round_trip, make_key, pair_key};
use crate::vocab::rules_valid;
use std::collections::HashMap;
use vstd::prelude::*;

verus! {

/// `ranks` maps the key of each rule's pair to the id that the rule merges
/// into, and holds nothing else.
pub open spec fn ranks_match(ranks: Map<u64, u32>, rules: Seq<(u32, u32)>) -> bool {
    &&& forall|k: int|
        0 <= k < rules.len() ==> ranks.contains_key(#[trigger] pair_key(rules[k])) && ranks[pair_key(
            rules[k],
        )] == 256 + k
    &&& forall|key: u64| #[trigger]
        ranks.contains_key(key) ==> 256 <= ranks[key] < 256 + rules.len() && rules[ranks[key]
            - 256] == key_pair(key)
}

/// The merge table. Its view is the list of rules: rule `k` merges its pair
/// into the id `256 + k`.
pub struct MergeTable {
    rules: Vec<(u32, u32)>,
    ranks: HashMap<u64, u32>,
}

impl View for MergeTable {
    type V = Seq<(u32, u32)>;

    closed spec fn view(&self) -> Seq<(u32, u32)> {
        self.rules@
    }
}

impl MergeTable {
    /// The rules are valid, and the index by pair agrees with them.
    pub closed spec fn wf(&self) -> bool {
        &&& rules_valid(self.rules@)
        &&& ranks_match(self.ranks@, self.rules@)
    }

    /// A well-formed table has valid rules.
    pub proof fn lemma_wf_rules(&self)
        requires
            self.wf(),
        ensures
            rules_valid(self@),
    {
    }

    /// The table without any rule.
    pub fn new() -> (table: Self)
        ensures
            table.wf(),
            table@ == Seq::<(u32, u32)>::empty(),
    {
        MergeTable { rules: Vec::new(), ranks: HashMap::new() }
    }

    /// The number of rules.
    pub fn len(&self) -> (n: usize)
        ensures
            n == self@.len(),
    {
        self.rules.len()
    }

    /// The pair of rule `k`.
    pub fn rule(&self, k: usize) -> (pair: (u32, u32))
        requires
            k < self@.len(),
        ensures
            pair == self@[k as int],
    {
        self.rules[k]
    }

    /// The id that `pair` is merged into, where a rule merges it.
    pub fn minted(&self, pair: (u32, u32)) -> (id: Option<u32>)
        requires
            self.wf(),
        ensures
            match id {
                Some(m) => 256 <= m < 256 + self@.len() && self@[m - 256] == pair,
                None => forall|k: int| 0 <= k < self@.len() ==> self@[k] != pair,
            },
    {
        let key = make_key(pair.0, pair.1);
        proof {
            lemma_key_round_trip(pair, key);
        }
        match self.ranks.get(&key) {
            Some(m) => Some(*m),
            None => {
                assert forall|k: int| 0 <= k < self@.len() implies self@[k] != pair by {
                    assert(self.ranks@.contains_key(pair_key(self.rules@[k])));
                }
                None
            },
        }
    }

    /// Adds the rule that merges `pair` into the next id.
    pub fn record(&mut self, pair: (u32, u32))
        requires
            old(self).wf(),
            rules_valid(old(self)@.push(pair)),
        ensures
            final(self).wf(),
            final(self)@ == old(self)@.push(pair),
    {
        let minted: u32 = (self.rules.len() + 256) as u32;
        let key = make_key(pair.0, pair.1);
        let ghost before = self.rules@;
        let ghost after = before.push(pair);
        self.rules.push(pair);
        self.ranks.insert(key, minted);
        proof {
            lemma_key_round_trip(pair, key);
            assert forall|k: int| 0 <= k < after.len() implies self.ranks@.contains_key(
                #[trigger] pair_key(after[k]),
            ) && self.ranks@[pair_key(after[k])] == 256 + k by {
                if k < before.len() {
                    assert(after[k] == before[k]);
                    assert(after[k] != after[before.len() as int]);
                    if pair_key(before[k]) == key {
                        lemma_key_injective(before[k], pair);
                    }
                    assert(old(self).ranks@.contains_key(pair_key(before[k])));
                }
            }
            assert forall|other: u64| #[trigger] self.ranks@.contains_key(other) implies 256
                <= self.ranks@[other] < 256 + after.len() && after[self.ranks@[other] - 256]
                == key_pair(other) by {
                if other != key {
                    assert(old(self).ranks@.contains_key(other));
                    assert(after[old(self).ranks@[other] - 256] == before[old(self).ranks@[other]
                        - 256]);
                }
            }
        }
    }
}

} // verus!
