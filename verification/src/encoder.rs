//! What encoding yields: the token sequence that comes of applying the merge
//! rules, earliest first, until none applies.

use crate::merge_table::MergeTable;
use crate::merger::{lemma_merge_ids, lemma_merge_length, merge_spec};
use crate::pairs::{occurs, pair_at};
use crate::vocab::{
    byte_ids, expansion, ids_below, lemma_expansion_merge, lemma_vocabulary, rules_valid,
    vocabulary_of,
};
use vstd::prelude::*;

verus! {

/// The first rule, from rule `from` on, whose pair occurs in `ids`.
pub open spec fn first_applicable(rules: Seq<(u32, u32)>, ids: Seq<u32>, from: int) -> Option<int>
    decreases rules.len() - from,
{
    if from < 0 || from >= rules.len() {
        None
    } else if occurs(ids, rules[from]) {
        Some(from)
    } else {
        first_applicable(rules, ids, from + 1)
    }
}

/// What `first_applicable` finds is a rule whose pair occurs, and no rule
/// between `from` and it has a pair that occurs.
pub proof fn lemma_first_applicable(rules: Seq<(u32, u32)>, ids: Seq<u32>, from: int)
    requires
        0 <= from,
    ensures
        match first_applicable(rules, ids, from) {
            Some(k) => from <= k < rules.len() && occurs(ids, rules[k]) && forall|j: int|
                from <= j < k ==> !occurs(ids, #[trigger] rules[j]),
            None => forall|j: int| from <= j < rules.len() ==> !occurs(ids, #[trigger] rules[j]),
        },
    decreases rules.len() - from,
{
    if from < rules.len() && !occurs(ids, rules[from]) {
        lemma_first_applicable(rules, ids, from + 1);
    }
}

/// `ids` after the rules have been applied: as long as the pair of some rule
/// occurs, the earliest such rule is applied to the whole sequence.
pub open spec fn apply_rules(rules: Seq<(u32, u32)>, ids: Seq<u32>) -> Seq<u32>
    decreases ids.len(),
    via apply_rules_decreases
{
    match first_applicable(rules, ids, 0) {
        Some(k) => apply_rules(rules, merge_spec(ids, rules[k], (256 + k) as u32)),
        None => ids,
    }
}

#[via_fn]
proof fn apply_rules_decreases(rules: Seq<(u32, u32)>, ids: Seq<u32>) {
    lemma_first_applicable(rules, ids, 0);
    match first_applicable(rules, ids, 0) {
        Some(k) => {
            lemma_merge_length(ids, rules[k], (256 + k) as u32);
        },
        None => {},
    }
}

/// Applying a rule of a valid list to ids of its vocabulary keeps the ids
/// within the vocabulary and the expansion as it was.
pub proof fn lemma_apply_rule(rules: Seq<(u32, u32)>, ids: Seq<u32>, k: int)
    requires
        rules_valid(rules),
        ids_below(ids, 256 + rules.len()),
        0 <= k < rules.len(),
    ensures
        ids_below(merge_spec(ids, rules[k], (256 + k) as u32), 256 + rules.len()),
        expansion(vocabulary_of(rules), merge_spec(ids, rules[k], (256 + k) as u32)) == expansion(
            vocabulary_of(rules),
            ids,
        ),
{
    let minted = (256 + k) as u32;
    let merged = merge_spec(ids, rules[k], minted);
    lemma_vocabulary(rules);
    lemma_expansion_merge(vocabulary_of(rules), ids, rules[k], minted);
    lemma_merge_ids(ids, rules[k], minted);
    assert forall|j: int| 0 <= j < merged.len() implies #[trigger] merged[j] < 256
        + rules.len() by {
        if merged[j] != minted {
            let i = choose|i: int| 0 <= i < ids.len() && ids[i] == merged[j];
            assert(ids[i] < 256 + rules.len());
        }
    }
}

/// Applying the rules keeps the ids within the vocabulary and the expansion
/// as it was, and leaves a sequence to which no rule applies.
pub proof fn lemma_apply_rules(rules: Seq<(u32, u32)>, ids: Seq<u32>)
    requires
        rules_valid(rules),
        ids_below(ids, 256 + rules.len()),
    ensures
        ids_below(apply_rules(rules, ids), 256 + rules.len()),
        expansion(vocabulary_of(rules), apply_rules(rules, ids)) == expansion(
            vocabulary_of(rules),
            ids,
        ),
        first_applicable(rules, apply_rules(rules, ids), 0) is None,
        apply_rules(rules, ids).len() <= ids.len(),
    decreases ids.len(),
{
    lemma_first_applicable(rules, ids, 0);
    match first_applicable(rules, ids, 0) {
        Some(k) => {
            let merged = merge_spec(ids, rules[k], (256 + k) as u32);
            lemma_merge_length(ids, rules[k], (256 + k) as u32);
            lemma_apply_rule(rules, ids, k);
            lemma_apply_rules(rules, merged);
        },
        None => {},
    }
}

/// A sequence to which no rule applies is what applying the rules yields.
pub proof fn lemma_apply_fixed(rules: Seq<(u32, u32)>, ids: Seq<u32>)
    requires
        first_applicable(rules, ids, 0) is None,
    ensures
        apply_rules(rules, ids) == ids,
{
}

/// Where no rule applies, the sequence stays as it is; so it does where
/// there is no rule.
pub proof fn lemma_apply_no_rule(rules: Seq<(u32, u32)>, ids: Seq<u32>)
    requires
        forall|k: int| 0 <= k < rules.len() ==> !occurs(ids, #[trigger] rules[k]),
    ensures
        apply_rules(rules, ids) == ids,
{
    lemma_first_applicable(rules, ids, 0);
}

/// Takes each byte as the id of its value.
pub fn to_ids(bytes: &[u8]) -> (ids: Vec<u32>)
    ensures
        ids@ == byte_ids(bytes@),
{
    let mut ids: Vec<u32> = Vec::with_capacity(bytes.len());
    let mut i: usize = 0;
    while i < bytes.len()
        invariant
            i <= bytes.len(),
            ids@ == byte_ids(bytes@.take(i as int)),
        decreases bytes.len() - i,
    {
        ids.push(bytes[i] as u32);
        i += 1;
        assert(ids@ =~= byte_ids(bytes@.take(i as int)));
    }
    assert(bytes@.take(i as int) =~= bytes@);
    ids
}

/// Finds the rule to apply next to `ids`: of the rules whose pair occurs, the
/// one that was learned first. It is the one that merges into the lowest id.
pub fn next_rule(table: &MergeTable, ids: &[u32]) -> (found: Option<usize>)
    requires
        table.wf(),
    ensures
        match found {
            Some(k) => first_applicable(table@, ids@, 0) == Some(k as int),
            None => first_applicable(table@, ids@, 0) is None,
        },
{
    let mut lowest: Option<u32> = None;
    let mut i: usize = 0;
    while i + 1 < ids.len()
        invariant
            table.wf(),
            i + 1 <= ids.len() || i == 0,
            match lowest {
                Some(m) => 256 <= m < 256 + table@.len() && occurs(ids@, table@[m - 256]),
                None => true,
            },
            forall|j: int, k: int|
                0 <= j < i && 0 <= k < table@.len() && #[trigger] pair_at(ids@, j)
                    == #[trigger] table@[k] ==> lowest is Some && lowest->Some_0 <= 256 + k,
        decreases ids.len() - i,
    {
        let pair: (u32, u32) = (ids[i], ids[i + 1]);
        assert(pair_at(ids@, i as int) == pair);
        match table.minted(pair) {
            Some(m) => {
                proof {
                    table.lemma_wf_rules();
                }
                let lower = match lowest {
                    Some(least) => m < least,
                    None => true,
                };
                if lower {
                    lowest = Some(m);
                }
            },
            None => {},
        }
        i += 1;
    }
    proof {
        table.lemma_wf_rules();
        lemma_first_applicable(table@, ids@, 0);
        assert forall|k: int| 0 <= k < table@.len() && occurs(ids@, table@[k]) implies lowest
            is Some && lowest->Some_0 <= 256 + k by {
            let j = choose|j: int| 0 <= j < ids@.len() - 1 && #[trigger] pair_at(ids@, j)
                == table@[k];
            assert(pair_at(ids@, j) == table@[k]);
        }
    }
    match lowest {
        Some(m) => Some((m - 256) as usize),
        None => None,
    }
}

} // verus!
