//! Replacing a pair of ids by one new id throughout a token sequence.

use crate::pairs::{occurs, pair_at};
use vstd::prelude::*;

verus! {

/// `ids` with each occurrence of `pair` replaced by `idx`, going from left to
/// right. An id that has been replaced as the right half of a pair is gone,
/// so it cannot be the left half of the next one: of a run `[4, 4, 4]` the
/// pair `(4, 4)` is replaced once, and one `4` stays behind it.
pub open spec fn merge_spec(ids: Seq<u32>, pair: (u32, u32), idx: u32) -> Seq<u32>
    decreases ids.len(),
{
    if ids.len() < 2 {
        ids
    } else if ids[0] == pair.0 && ids[1] == pair.1 {
        seq![idx] + merge_spec(ids.skip(2), pair, idx)
    } else {
        seq![ids[0]] + merge_spec(ids.skip(1), pair, idx)
    }
}

/// Replaces every occurrence of `pair` in `ids` by `idx`, scanning once from
/// left to right and resuming behind each replaced pair. An empty sequence
/// and a sequence of one id come back unchanged.
pub fn merge(ids: &[u32], pair: (u32, u32), idx: u32) -> (merged: Vec<u32>)
    ensures
        merged@ == merge_spec(ids@, pair, idx),
{
    let mut merged: Vec<u32> = Vec::with_capacity(ids.len());
    let mut i: usize = 0;
    assert(ids@.skip(0) =~= ids@);
    while i < ids.len()
        invariant
            i <= ids.len(),
            merge_spec(ids@, pair, idx) == merged@ + merge_spec(ids@.skip(i as int), pair, idx),
        decreases ids.len() - i,
    {
        let ghost rest = ids@.skip(i as int);
        let ghost done = merged@;
        if i + 1 < ids.len() && ids[i] == pair.0 && ids[i + 1] == pair.1 {
            merged.push(idx);
            i += 2;
            proof {
                let tail = merge_spec(rest.skip(2), pair, idx);
                assert(rest.skip(2) =~= ids@.skip(i as int));
                assert(merged@ + tail =~= done + (seq![idx] + tail));
            }
        } else {
            merged.push(ids[i]);
            i += 1;
            proof {
                if rest.len() >= 2 {
                    let tail = merge_spec(rest.skip(1), pair, idx);
                    assert(rest.skip(1) =~= ids@.skip(i as int));
                    assert(merged@ + tail =~= done + (seq![rest[0]] + tail));
                } else {
                    assert(ids@.skip(i as int) =~= Seq::<u32>::empty());
                    assert(merged@ + Seq::<u32>::empty() =~= done + rest);
                }
            }
        }
    }
    assert(merged@ + Seq::<u32>::empty() =~= merged@);
    merged
}

/// Merging a pair that does not occur changes nothing.
pub proof fn lemma_merge_absent_pair(ids: Seq<u32>, pair: (u32, u32), idx: u32)
    requires
        !occurs(ids, pair),
    ensures
        merge_spec(ids, pair, idx) == ids,
    decreases ids.len(),
{
    if ids.len() >= 2 {
        assert(pair_at(ids, 0) != pair);
        let rest = ids.skip(1);
        assert forall|i: int| 0 <= i < rest.len() - 1 implies #[trigger] pair_at(rest, i)
            != pair by {
            assert(pair_at(ids, i + 1) == pair_at(rest, i));
        }
        lemma_merge_absent_pair(rest, pair, idx);
        assert(seq![ids[0]] + rest =~= ids);
    }
}

/// Merging never makes a sequence longer, and it makes it shorter where the
/// pair occurs.
pub proof fn lemma_merge_length(ids: Seq<u32>, pair: (u32, u32), idx: u32)
    ensures
        merge_spec(ids, pair, idx).len() <= ids.len(),
        occurs(ids, pair) ==> merge_spec(ids, pair, idx).len() < ids.len(),
        ids.len() >= 1 ==> merge_spec(ids, pair, idx).len() >= 1,
    decreases ids.len(),
{
    if ids.len() >= 2 {
        if ids[0] == pair.0 && ids[1] == pair.1 {
            lemma_merge_length(ids.skip(2), pair, idx);
        } else {
            let rest = ids.skip(1);
            lemma_merge_length(rest, pair, idx);
            if occurs(ids, pair) {
                let i = choose|i: int| 0 <= i < ids.len() - 1 && #[trigger] pair_at(ids, i)
                    == pair;
                assert(i > 0);
                assert(pair_at(rest, i - 1) == pair);
            }
        }
    }
}

/// Each id of a merged sequence is the new id or an id of the sequence that
/// was merged.
pub proof fn lemma_merge_ids(ids: Seq<u32>, pair: (u32, u32), idx: u32)
    ensures
        forall|j: int|
            0 <= j < merge_spec(ids, pair, idx).len() ==> #[trigger] merge_spec(ids, pair, idx)[j]
                == idx || ids.contains(merge_spec(ids, pair, idx)[j]),
        ids.len() >= 1 ==> merge_spec(ids, pair, idx)[0] == idx || merge_spec(ids, pair, idx)[0]
            == ids[0],
    decreases ids.len(),
{
    let merged = merge_spec(ids, pair, idx);
    if ids.len() >= 2 {
        let rest = if ids[0] == pair.0 && ids[1] == pair.1 {
            ids.skip(2)
        } else {
            ids.skip(1)
        };
        lemma_merge_ids(rest, pair, idx);
        let tail = merge_spec(rest, pair, idx);
        assert forall|j: int| 0 <= j < merged.len() implies #[trigger] merged[j] == idx
            || ids.contains(merged[j]) by {
            if j == 0 {
                assert(merged[0] == idx || merged[0] == ids[0]);
            } else {
                assert(merged[j] == tail[j - 1]);
                if tail[j - 1] != idx {
                    let k = choose|k: int| 0 <= k < rest.len() && rest[k] == tail[j - 1];
                    assert(ids[k + (ids.len() - rest.len())] == rest[k]);
                }
            }
        }
    } else {
        assert forall|j: int| 0 <= j < merged.len() implies #[trigger] merged[j] == idx
            || ids.contains(merged[j]) by {
            assert(ids[j] == merged[j]);
        }
    }
}

/// Two ids that stand next to each other in a merged sequence, neither of
/// them the new id, stood next to each other before, and they are not the
/// pair that was merged. Merging therefore brings no old pair into being, and
/// where the new id is neither half of the merged pair, that pair is gone.
pub proof fn lemma_merge_pairs(ids: Seq<u32>, pair: (u32, u32), idx: u32)
    ensures
        forall|j: int|
            0 <= j < merge_spec(ids, pair, idx).len() - 1 ==> {
                let next = #[trigger] pair_at(merge_spec(ids, pair, idx), j);
                next.0 == idx || next.1 == idx || (occurs(ids, next) && next != pair)
            },
    decreases ids.len(),
{
    let merged = merge_spec(ids, pair, idx);
    if ids.len() >= 2 {
        let matched = ids[0] == pair.0 && ids[1] == pair.1;
        let rest = if matched {
            ids.skip(2)
        } else {
            ids.skip(1)
        };
        let tail = merge_spec(rest, pair, idx);
        lemma_merge_pairs(rest, pair, idx);
        lemma_merge_ids(rest, pair, idx);
        assert forall|j: int| 0 <= j < merged.len() - 1 implies {
            let next = #[trigger] pair_at(merged, j);
            next.0 == idx || next.1 == idx || (occurs(ids, next) && next != pair)
        } by {
            let next = pair_at(merged, j);
            if j == 0 {
                assert(merged[1] == tail[0]);
                if !matched && tail[0] != idx {
                    assert(tail[0] == rest[0]);
                    assert(pair_at(ids, 0) == next);
                }
            } else {
                assert(pair_at(tail, j - 1) == next);
                if next.0 != idx && next.1 != idx {
                    let k = choose|k: int| 0 <= k < rest.len() - 1 && #[trigger] pair_at(rest, k)
                        == next;
                    assert(pair_at(ids, k + (ids.len() - rest.len())) == next);
                }
            }
        }
    }
}

} // verus!
