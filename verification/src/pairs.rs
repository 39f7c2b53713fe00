//! Adjacent pairs of a token sequence: where they occur, how often, and the
//! integer key under which a hash map holds them.

use std::collections::HashMap;
use vstd::prelude::*;

verus! {

/// The pair that starts at position `i` of `ids`.
pub open spec fn pair_at(ids: Seq<u32>, i: int) -> (u32, u32) {
    (ids[i], ids[i + 1])
}

/// `pair` stands somewhere in `ids`, its two halves next to each other.
pub open spec fn occurs(ids: Seq<u32>, pair: (u32, u32)) -> bool {
    exists|i: int| 0 <= i < ids.len() - 1 && #[trigger] pair_at(ids, i) == pair
}

/// The number of positions of `ids` at which `pair` starts. Occurrences that
/// overlap are all counted: `(7, 7)` is counted twice in `[7, 7, 7]`.
pub open spec fn pair_count(ids: Seq<u32>, pair: (u32, u32)) -> nat
    decreases ids.len(),
{
    if ids.len() < 2 {
        0
    } else {
        let before = pair_count(ids.drop_last(), pair);
        if pair_at(ids, ids.len() - 2) == pair {
            before + 1
        } else {
            before
        }
    }
}

/// The key of a pair in a hash map: the left id in the upper 32 bits, the
/// right id in the lower 32 bits.
pub open spec fn pair_key(pair: (u32, u32)) -> u64 {
    (pair.0 as int * 0x1_0000_0000 + pair.1 as int) as u64
}

/// The pair that a key stands for.
pub open spec fn key_pair(key: u64) -> (u32, u32) {
    ((key as int / 0x1_0000_0000) as u32, (key as int % 0x1_0000_0000) as u32)
}

/// Keys and pairs correspond one to one.
pub proof fn lemma_key_round_trip(pair: (u32, u32), key: u64)
    ensures
        key_pair(pair_key(pair)) == pair,
        pair_key(key_pair(key)) == key,
{
}

/// Two pairs with the same key are the same pair.
pub proof fn lemma_key_injective(p: (u32, u32), q: (u32, u32))
    requires
        pair_key(p) == pair_key(q),
    ensures
        p == q,
{
    lemma_key_round_trip(p, 0);
    lemma_key_round_trip(q, 0);
}

/// The key of the pair `(left, right)`.
pub fn make_key(left: u32, right: u32) -> (key: u64)
    ensures
        key == pair_key((left, right)),
{
    left as u64 * 0x1_0000_0000 + right as u64
}

/// A sequence of `n` ids has `n - 1` positions at which a pair can start.
pub proof fn lemma_pair_count_bound(ids: Seq<u32>, pair: (u32, u32))
    ensures
        pair_count(ids, pair) <= ids.len(),
        ids.len() >= 1 ==> pair_count(ids, pair) <= ids.len() - 1,
    decreases ids.len(),
{
    if ids.len() >= 2 {
        lemma_pair_count_bound(ids.drop_last(), pair);
    }
}

/// A pair is counted at least once exactly when it occurs.
pub proof fn lemma_count_positive_iff_occurs(ids: Seq<u32>, pair: (u32, u32))
    ensures
        pair_count(ids, pair) > 0 <==> occurs(ids, pair),
    decreases ids.len(),
{
    if ids.len() >= 2 {
        let shorter = ids.drop_last();
        lemma_count_positive_iff_occurs(shorter, pair);
        if occurs(shorter, pair) {
            let i = choose|i: int|
                0 <= i < shorter.len() - 1 && #[trigger] pair_at(shorter, i) == pair;
            assert(pair_at(ids, i) == pair);
        }
        if occurs(ids, pair) {
            let i = choose|i: int| 0 <= i < ids.len() - 1 && #[trigger] pair_at(ids, i) == pair;
            if i < ids.len() - 2 {
                assert(pair_at(shorter, i) == pair);
            }
        }
        if pair_at(ids, ids.len() - 2) == pair {
            assert(occurs(ids, pair));
        }
    }
}

/// The pair counts of a sequence as a map from keys: a key is present exactly
/// when its pair occurs, and it is mapped to the number of occurrences. (A
/// sequence that a slice holds has fewer pairs than `usize::MAX`, so the
/// number fits.)
pub open spec fn pair_counts(ids: Seq<u32>) -> Map<u64, usize> {
    Map::new(
        |key: u64| pair_count(ids, key_pair(key)) > 0,
        |key: u64| pair_count(ids, key_pair(key)) as usize,
    )
}

/// Counts the adjacent pairs of `ids` in one pass from left to right.
///
/// The map that comes back holds an entry for each pair that occurs, under
/// the pair's key, and no other entry. A sequence of fewer than two ids has
/// no pair, and its map is empty.
pub fn get_stats(ids: &[u32]) -> (stats: HashMap<u64, usize>)
    ensures
        stats@ == pair_counts(ids@),
        ids@.len() < 2 ==> stats@ == Map::<u64, usize>::empty(),
{
    let mut stats: HashMap<u64, usize> = HashMap::new();
    if ids.len() < 2 {
        assert(stats@ =~= pair_counts(ids@));
        return stats;
    }
    assert(ids@.take(1).len() < 2);
    assert(stats@ =~= pair_counts(ids@.take(1)));
    let mut i: usize = 0;
    while i < ids.len() - 1
        invariant
            ids.len() >= 2,
            i <= ids.len() - 1,
            stats@ == pair_counts(ids@.take(i + 1)),
        decreases ids.len() - i,
    {
        let key = make_key(ids[i], ids[i + 1]);
        let ghost pair = (ids[i as int], ids[i + 1]);
        let ghost before = ids@.take(i + 1);
        let ghost after = ids@.take(i + 2);
        let seen: usize = match stats.get(&key) {
            Some(count) => *count,
            None => 0,
        };
        proof {
            lemma_key_round_trip(pair, key);
            lemma_pair_count_bound(before, pair);
            assert(after.drop_last() =~= before);
            assert(pair_at(after, after.len() - 2) == pair);
            assert(seen == pair_count(before, pair));
        }
        stats.insert(key, seen + 1);
        proof {
            assert forall|k: u64| #[trigger]
                stats@.contains_key(k) == pair_counts(after).contains_key(k) by {
                lemma_key_round_trip(pair, k);
            }
            assert forall|k: u64| #[trigger] stats@.contains_key(k) implies stats@[k]
                == pair_counts(after)[k] by {
                lemma_key_round_trip(pair, k);
                lemma_pair_count_bound(before, key_pair(k));
            }
            assert(stats@ =~= pair_counts(after));
        }
        i += 1;
    }
    assert(ids@.take(i + 1) =~= ids@);
    stats
}

/// `p` comes before `q`, or is `q`, in the order by the left id and then by
/// the right id.
pub open spec fn pair_le(p: (u32, u32), q: (u32, u32)) -> bool {
    p.0 < q.0 || (p.0 == q.0 && p.1 <= q.1)
}

/// `other` would not be chosen over `best`: it is rarer in `ids`, or as
/// frequent and not before `best` in the order of `pair_le`.
pub open spec fn no_better(ids: Seq<u32>, other: (u32, u32), best: (u32, u32)) -> bool {
    pair_count(ids, other) < pair_count(ids, best) || (pair_count(ids, other) == pair_count(
        ids,
        best,
    ) && pair_le(best, other))
}

/// `best` is the pair that training merges next: it occurs in `ids`, no pair
/// occurs more often, and among the pairs that occur as often it is the first
/// in the order of `pair_le`. That order breaks every tie, so a sequence has
/// at most one such pair.
pub open spec fn is_most_frequent(ids: Seq<u32>, best: (u32, u32)) -> bool {
    &&& occurs(ids, best)
    &&& forall|other: (u32, u32)| #[trigger] no_better(ids, other, best)
}

/// The pair that `is_most_frequent` singles out, where `ids` has a pair.
pub open spec fn most_frequent(ids: Seq<u32>) -> (u32, u32) {
    choose|best: (u32, u32)| is_most_frequent(ids, best)
}

/// A sequence has at most one most frequent pair.
pub proof fn lemma_most_frequent_unique(ids: Seq<u32>, p: (u32, u32), q: (u32, u32))
    requires
        is_most_frequent(ids, p),
        is_most_frequent(ids, q),
    ensures
        p == q,
{
    assert(no_better(ids, p, q));
    assert(no_better(ids, q, p));
}

/// The number of times `pair` occurs in `ids`, read from the counts of `ids`.
fn count_of(
    stats: &HashMap<u64, usize>,
    pair: (u32, u32),
    Ghost(ids): Ghost<Seq<u32>>,
) -> (count: usize)
    requires
        stats@ == pair_counts(ids),
        ids.len() <= usize::MAX,
    ensures
        count == pair_count(ids, pair),
{
    let key = make_key(pair.0, pair.1);
    proof {
        lemma_key_round_trip(pair, key);
        lemma_pair_count_bound(ids, pair);
    }
    let count: usize = match stats.get(&key) {
        Some(count) => *count,
        None => 0,
    };
    assert(stats@.contains_key(key) <==> pair_count(ids, pair) > 0);
    count
}

/// Finds the pair that occurs most often in `ids`.
///
/// Where several pairs occur equally often, the one with the smallest left
/// id wins, and among those the one with the smallest right id. A sequence
/// of fewer than two ids has no pair.
pub fn most_frequent_pair(ids: &[u32]) -> (best: Option<(u32, u32)>)
    ensures
        ids@.len() < 2 <==> best is None,
        best matches Some(pair) ==> is_most_frequent(ids@, pair) && pair == most_frequent(ids@),
{
    if ids.len() < 2 {
        return None;
    }
    let stats = get_stats(ids);
    let mut best: (u32, u32) = (ids[0], ids[1]);
    assert(pair_at(ids@, 0) == best);
    let mut best_count: usize = count_of(&stats, best, Ghost(ids@));
    let mut i: usize = 1;
    while i < ids.len() - 1
        invariant
            ids.len() >= 2,
            1 <= i <= ids.len() - 1,
            stats@ == pair_counts(ids@),
            occurs(ids@, best),
            best_count == pair_count(ids@, best),
            forall|j: int| 0 <= j < i ==> no_better(ids@, #[trigger] pair_at(ids@, j), best),
        decreases ids.len() - i,
    {
        let candidate: (u32, u32) = (ids[i], ids[i + 1]);
        assert(pair_at(ids@, i as int) == candidate);
        let count: usize = count_of(&stats, candidate, Ghost(ids@));
        let earlier = candidate.0 < best.0 || (candidate.0 == best.0 && candidate.1 < best.1);
        if count > best_count || (count == best_count && earlier) {
            best = candidate;
            best_count = count;
        }
        i += 1;
    }
    proof {
        assert forall|other: (u32, u32)| #[trigger] no_better(ids@, other, best) by {
            lemma_count_positive_iff_occurs(ids@, other);
            lemma_count_positive_iff_occurs(ids@, best);
            if occurs(ids@, other) {
                let j = choose|j: int| 0 <= j < ids@.len() - 1 && #[trigger] pair_at(ids@, j)
                    == other;
                assert(no_better(ids@, pair_at(ids@, j), best));
            }
        }
        assert(is_most_frequent(ids@, best));
        lemma_most_frequent_unique(ids@, best, most_frequent(ids@));
    }
    Some(best)
}

} // verus!
