//! What training learns: the merge rules that come of merging, round after
//! round, the most frequent pair of the token sequence.

use crate::merger::{lemma_merge_ids, lemma_merge_length, lemma_merge_pairs, merge_spec};
use crate::pairs::{
    is_most_frequent, lemma_count_positive_iff_occurs, most_frequent, no_better, occurs, pair_at,
};
use crate::vocab::{byte_ids, ids_below, rules_valid};
use vstd::prelude::*;

verus! {

/// The rules after at most `rounds` further rounds of training on `ids`, with
/// `rules` learned so far.
///
/// A round merges the most frequent pair of the sequence into the next free
/// id and adds that pair to the rules. Training ends before the rounds are
/// used up where the sequence has no pair left, or where no id is left.
pub open spec fn learn(ids: Seq<u32>, rules: Seq<(u32, u32)>, rounds: nat) -> Seq<(u32, u32)>
    decreases rounds,
{
    if rounds == 0 || ids.len() < 2 || 256 + rules.len() >= 0x1_0000_0000 {
        rules
    } else {
        let pair = most_frequent(ids);
        let minted = (256 + rules.len()) as u32;
        learn(merge_spec(ids, pair, minted), rules.push(pair), (rounds - 1) as nat)
    }
}

/// The rules that training on `text` learns for a vocabulary of `vocab_size`
/// ids: at most `vocab_size - 256` of them.
pub open spec fn trained_rules(text: Seq<u8>, vocab_size: int) -> Seq<(u32, u32)> {
    if vocab_size <= 256 {
        Seq::empty()
    } else {
        learn(byte_ids(text), Seq::empty(), (vocab_size - 256) as nat)
    }
}

/// What holds of the token sequence and the rules between two rounds: the
/// rules are valid, the sequence holds only ids that exist, and no pair that
/// has been merged stands in it.
pub open spec fn training_state(ids: Seq<u32>, rules: Seq<(u32, u32)>) -> bool {
    &&& rules_valid(rules)
    &&& ids_below(ids, 256 + rules.len())
    &&& forall|k: int| 0 <= k < rules.len() ==> !occurs(ids, #[trigger] rules[k])
}

/// Training starts in a training state.
pub proof fn lemma_training_starts(text: Seq<u8>)
    ensures
        training_state(byte_ids(text), Seq::empty()),
{
}

/// The best pair among those that start at the first `n` positions.
proof fn lemma_best_among(ids: Seq<u32>, n: int) -> (best: (u32, u32))
    requires
        1 <= n <= ids.len() - 1,
    ensures
        occurs(ids, best),
        forall|j: int| 0 <= j < n ==> no_better(ids, #[trigger] pair_at(ids, j), best),
    decreases n,
{
    if n == 1 {
        pair_at(ids, 0)
    } else {
        let earlier = lemma_best_among(ids, n - 1);
        let candidate = pair_at(ids, n - 1);
        if no_better(ids, candidate, earlier) {
            earlier
        } else {
            candidate
        }
    }
}

/// A sequence of two or more ids has a most frequent pair.
pub proof fn lemma_most_frequent_exists(ids: Seq<u32>)
    requires
        ids.len() >= 2,
    ensures
        is_most_frequent(ids, most_frequent(ids)),
{
    let best = lemma_best_among(ids, ids.len() - 1);
    assert forall|other: (u32, u32)| #[trigger] no_better(ids, other, best) by {
        lemma_count_positive_iff_occurs(ids, other);
        lemma_count_positive_iff_occurs(ids, best);
        if occurs(ids, other) {
            let j = choose|j: int| 0 <= j < ids.len() - 1 && #[trigger] pair_at(ids, j) == other;
            assert(no_better(ids, pair_at(ids, j), best));
        }
    }
    assert(is_most_frequent(ids, best));
}

/// A round of training leads from one training state to the next, whatever
/// pair of the sequence it merges.
pub proof fn lemma_training_step(ids: Seq<u32>, rules: Seq<(u32, u32)>, pair: (u32, u32))
    requires
        training_state(ids, rules),
        256 + rules.len() < 0x1_0000_0000,
        occurs(ids, pair),
    ensures
        training_state(merge_spec(ids, pair, (256 + rules.len()) as u32), rules.push(pair)),
        pair.0 < 256 + rules.len(),
        pair.1 < 256 + rules.len(),
{
    let minted = (256 + rules.len()) as u32;
    let merged = merge_spec(ids, pair, minted);
    let longer = rules.push(pair);
    let at = choose|i: int| 0 <= i < ids.len() - 1 && #[trigger] pair_at(ids, i) == pair;
    assert(ids[at] == pair.0 && ids[at + 1] == pair.1);
    assert(rules_valid(longer)) by {
        assert forall|j: int, k: int| 0 <= j < k < longer.len() implies longer[j] != longer[k] by {
            if k == rules.len() {
                assert(!occurs(ids, rules[j]));
            }
        }
    }
    assert(ids_below(merged, 256 + longer.len())) by {
        lemma_merge_ids(ids, pair, minted);
        assert forall|j: int| 0 <= j < merged.len() implies #[trigger] merged[j] < 256
            + longer.len() by {
            if merged[j] != minted {
                let i = choose|i: int| 0 <= i < ids.len() && ids[i] == merged[j];
                assert(ids[i] < 256 + rules.len());
            }
        }
    }
    assert forall|k: int| 0 <= k < longer.len() implies !occurs(merged, #[trigger] longer[k]) by {
        if occurs(merged, longer[k]) {
            lemma_merge_pairs(ids, pair, minted);
            let j = choose|j: int| 0 <= j < merged.len() - 1 && #[trigger] pair_at(merged, j)
                == longer[k];
            let next = pair_at(merged, j);
            assert(next.0 != minted && next.1 != minted);
            assert(occurs(ids, next) && next != pair);
            assert(k < rules.len());
            assert(rules[k] == next);
        }
    }
}

/// Training keeps the rules valid.
pub proof fn lemma_learn_valid(ids: Seq<u32>, rules: Seq<(u32, u32)>, rounds: nat)
    requires
        training_state(ids, rules),
    ensures
        rules_valid(learn(ids, rules, rounds)),
    decreases rounds,
{
    if !(rounds == 0 || ids.len() < 2 || 256 + rules.len() >= 0x1_0000_0000) {
        let pair = most_frequent(ids);
        lemma_most_frequent_exists(ids);
        lemma_training_step(ids, rules, pair);
        lemma_learn_valid(
            merge_spec(ids, pair, (256 + rules.len()) as u32),
            rules.push(pair),
            (rounds - 1) as nat,
        );
    }
}

/// Training adds at most one rule in each round, and at most one for each id
/// of the sequence but the first: every round makes the sequence shorter, and
/// a sequence of one id has no pair.
pub proof fn lemma_learn_count(ids: Seq<u32>, rules: Seq<(u32, u32)>, rounds: nat)
    ensures
        rules.len() <= learn(ids, rules, rounds).len() <= rules.len() + rounds,
        ids.len() >= 1 ==> learn(ids, rules, rounds).len() <= rules.len() + ids.len() - 1,
        ids.len() == 0 ==> learn(ids, rules, rounds) == rules,
    decreases rounds,
{
    if !(rounds == 0 || ids.len() < 2 || 256 + rules.len() >= 0x1_0000_0000) {
        let pair = most_frequent(ids);
        let minted = (256 + rules.len()) as u32;
        lemma_most_frequent_exists(ids);
        lemma_merge_length(ids, pair, minted);
        lemma_learn_count(merge_spec(ids, pair, minted), rules.push(pair), (rounds - 1) as nat);
    }
}

} // verus!
