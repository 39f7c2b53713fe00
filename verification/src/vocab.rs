//! The vocabulary that a list of merge rules stands for, and the bytes that a
//! token sequence expands to.
//!
//! A tokenizer is described by its merge rules in the order in which they were
//! learned: rule `k` merges a pair of earlier ids into the new id `256 + k`.
//! The ids below 256 are the byte values.

use crate::byte_string::{bytes_as_slice, bytes_contents, bytes_from_slice, concat};
use crate::merger::merge_spec;
use crate::pairs::{occurs, pair_at};
use bytes::Bytes;
use vstd::prelude::*;

verus! {

/// The merge rules can have been learned one after the other: each rule
/// merges two ids that existed before it, no pair is merged twice, and every
/// new id fits in a `u32`.
pub open spec fn rules_valid(rules: Seq<(u32, u32)>) -> bool {
    &&& 256 + rules.len() <= 0x1_0000_0000
    &&& forall|k: int|
        0 <= k < rules.len() ==> (#[trigger] rules[k]).0 < 256 + k && rules[k].1 < 256 + k
    &&& forall|j: int, k: int| 0 <= j < k < rules.len() ==> rules[j] != rules[k]
}

/// The vocabulary before any merge: id `i` is the one byte `i`.
pub open spec fn base_vocabulary() -> Seq<Seq<u8>> {
    Seq::new(256, |i: int| seq![i as u8])
}

/// The byte string of every id, indexed by id. Each rule adds one entry, the
/// byte strings of its two ids one behind the other.
pub open spec fn vocabulary_of(rules: Seq<(u32, u32)>) -> Seq<Seq<u8>>
    decreases rules.len(),
{
    if rules.len() == 0 {
        base_vocabulary()
    } else {
        let earlier = vocabulary_of(rules.drop_last());
        let pair = rules.last();
        earlier.push(earlier[pair.0 as int] + earlier[pair.1 as int])
    }
}

/// Every id of `ids` is below `bound`.
pub open spec fn ids_below(ids: Seq<u32>, bound: nat) -> bool {
    forall|i: int| 0 <= i < ids.len() ==> #[trigger] ids[i] < bound
}

/// The byte strings of `ids` one behind the other.
pub open spec fn expansion(vocab: Seq<Seq<u8>>, ids: Seq<u32>) -> Seq<u8>
    decreases ids.len(),
{
    if ids.len() == 0 {
        Seq::empty()
    } else {
        expansion(vocab, ids.drop_last()) + vocab[ids.last() as int]
    }
}

/// A byte sequence as ids: each byte is the id of its value.
pub open spec fn byte_ids(bytes: Seq<u8>) -> Seq<u32> {
    Seq::new(bytes.len(), |i: int| bytes[i] as u32)
}

/// How large a vocabulary is, and what stands in it.
pub proof fn lemma_vocabulary(rules: Seq<(u32, u32)>)
    requires
        rules_valid(rules),
    ensures
        vocabulary_of(rules).len() == 256 + rules.len(),
        forall|i: int| 0 <= i < 256 ==> #[trigger] vocabulary_of(rules)[i] == seq![i as u8],
        forall|k: int|
            0 <= k < rules.len() ==> #[trigger] vocabulary_of(rules)[256 + k] == vocabulary_of(
                rules,
            )[rules[k].0 as int] + vocabulary_of(rules)[rules[k].1 as int],
    decreases rules.len(),
{
    if rules.len() > 0 {
        let earlier = rules.drop_last();
        assert(rules_valid(earlier));
        lemma_vocabulary(earlier);
        let vocab = vocabulary_of(rules);
        assert forall|k: int| 0 <= k < rules.len() implies #[trigger] vocab[256 + k]
            == vocab[rules[k].0 as int] + vocab[rules[k].1 as int] by {
            if k < earlier.len() {
                assert(earlier[k] == rules[k]);
                assert(vocab[256 + k] == vocabulary_of(earlier)[256 + k]);
            }
        }
    }
}

/// A vocabulary keeps its entries when a rule is added.
pub proof fn lemma_vocabulary_grows(rules: Seq<(u32, u32)>, pair: (u32, u32))
    requires
        rules_valid(rules),
    ensures
        vocabulary_of(rules.push(pair)) == vocabulary_of(rules).push(
            vocabulary_of(rules)[pair.0 as int] + vocabulary_of(rules)[pair.1 as int],
        ),
{
    assert(rules.push(pair).drop_last() =~= rules);
}

/// The expansion of two sequences one behind the other is their expansions
/// one behind the other.
pub proof fn lemma_expansion_concat(vocab: Seq<Seq<u8>>, front: Seq<u32>, back: Seq<u32>)
    ensures
        expansion(vocab, front + back) == expansion(vocab, front) + expansion(vocab, back),
    decreases back.len(),
{
    if back.len() == 0 {
        assert(front + back =~= front);
        assert(expansion(vocab, front) + expansion(vocab, back) =~= expansion(vocab, front));
    } else {
        lemma_expansion_concat(vocab, front, back.drop_last());
        assert((front + back).drop_last() =~= front + back.drop_last());
        assert(expansion(vocab, front + back) =~= expansion(vocab, front) + expansion(vocab, back));
    }
}

/// The expansion of one id is its byte string, and of two ids their byte
/// strings one behind the other.
pub proof fn lemma_expansion_short(vocab: Seq<Seq<u8>>, a: u32, b: u32)
    ensures
        expansion(vocab, seq![a]) == vocab[a as int],
        expansion(vocab, seq![a, b]) == vocab[a as int] + vocab[b as int],
{
    assert(seq![a].drop_last() =~= Seq::<u32>::empty());
    assert(expansion(vocab, Seq::<u32>::empty()) =~= Seq::<u8>::empty());
    assert(expansion(vocab, seq![a]) =~= vocab[a as int]);
    assert(seq![a, b].drop_last() =~= seq![a]);
}

/// Where the new id stands for the byte strings of the pair one behind the
/// other, merging leaves the expansion as it was.
pub proof fn lemma_expansion_merge(vocab: Seq<Seq<u8>>, ids: Seq<u32>, pair: (u32, u32), idx: u32)
    requires
        vocab[idx as int] == vocab[pair.0 as int] + vocab[pair.1 as int],
    ensures
        expansion(vocab, merge_spec(ids, pair, idx)) == expansion(vocab, ids),
    decreases ids.len(),
{
    if ids.len() >= 2 {
        if ids[0] == pair.0 && ids[1] == pair.1 {
            let rest = ids.skip(2);
            lemma_expansion_merge(vocab, rest, pair, idx);
            lemma_expansion_concat(vocab, seq![idx], merge_spec(rest, pair, idx));
            lemma_expansion_concat(vocab, seq![ids[0], ids[1]], rest);
            lemma_expansion_short(vocab, idx, idx);
            lemma_expansion_short(vocab, ids[0], ids[1]);
            assert(seq![ids[0], ids[1]] + rest =~= ids);
        } else {
            let rest = ids.skip(1);
            lemma_expansion_merge(vocab, rest, pair, idx);
            lemma_expansion_concat(vocab, seq![ids[0]], merge_spec(rest, pair, idx));
            lemma_expansion_concat(vocab, seq![ids[0]], rest);
            assert(seq![ids[0]] + rest =~= ids);
        }
    }
}

/// The expansion reads only the entries of the ids that it expands.
pub proof fn lemma_expansion_agrees(vocab: Seq<Seq<u8>>, longer: Seq<Seq<u8>>, ids: Seq<u32>)
    requires
        ids_below(ids, vocab.len()),
        vocab.len() <= longer.len(),
        forall|i: int| 0 <= i < vocab.len() ==> vocab[i] == longer[i],
    ensures
        expansion(longer, ids) == expansion(vocab, ids),
    decreases ids.len(),
{
    if ids.len() > 0 {
        assert(ids_below(ids.drop_last(), vocab.len())) by {
            assert forall|i: int| 0 <= i < ids.drop_last().len() implies #[trigger] ids.drop_last()[i]
                < vocab.len() by {
                assert(ids[i] == ids.drop_last()[i]);
            }
        }
        lemma_expansion_agrees(vocab, longer, ids.drop_last());
        assert(ids[ids.len() - 1] < vocab.len());
    }
}

/// Bytes taken as ids expand to themselves.
pub proof fn lemma_expansion_of_bytes(rules: Seq<(u32, u32)>, bytes: Seq<u8>)
    requires
        rules_valid(rules),
    ensures
        expansion(vocabulary_of(rules), byte_ids(bytes)) == bytes,
        ids_below(byte_ids(bytes), 256),
    decreases bytes.len(),
{
    lemma_vocabulary(rules);
    if bytes.len() > 0 {
        lemma_expansion_of_bytes(rules, bytes.drop_last());
        assert(byte_ids(bytes).drop_last() =~= byte_ids(bytes.drop_last()));
        let last = bytes.last();
        assert(byte_ids(bytes).last() == last as u32);
        assert(vocabulary_of(rules)[last as int] == seq![last]);
        assert(bytes.drop_last() + seq![last] =~= bytes);
    } else {
        assert(expansion(vocabulary_of(rules), byte_ids(bytes)) =~= bytes);
    }
}

/// A pair that occurs in a sequence takes up part of the expansion: the byte
/// strings of its two ids are together no longer than the whole.
pub proof fn lemma_expansion_holds_pair(vocab: Seq<Seq<u8>>, ids: Seq<u32>, pair: (u32, u32))
    requires
        occurs(ids, pair),
    ensures
        vocab[pair.0 as int].len() + vocab[pair.1 as int].len() <= expansion(vocab, ids).len(),
    decreases ids.len(),
{
    let i = choose|i: int| 0 <= i < ids.len() - 1 && #[trigger] pair_at(ids, i) == pair;
    if i == ids.len() - 2 {
        let front = ids.drop_last();
        assert(front.len() >= 1);
        assert(front.last() == pair.0);
    } else {
        assert(pair_at(ids.drop_last(), i) == pair);
        lemma_expansion_holds_pair(vocab, ids.drop_last(), pair);
    }
}

/// The vocabulary store: the byte string of every id, at the index of the
/// id. It grows by one entry with every merge.
pub struct Vocabulary {
    tokens: Vec<Bytes>,
}

impl View for Vocabulary {
    type V = Seq<Seq<u8>>;

    closed spec fn view(&self) -> Seq<Seq<u8>> {
        Seq::new(self.tokens@.len(), |i: int| bytes_contents(self.tokens@[i]))
    }
}

impl Vocabulary {
    /// The vocabulary of the 256 single bytes.
    pub fn seeded() -> (vocab: Self)
        ensures
            vocab@ == base_vocabulary(),
    {
        let mut tokens: Vec<Bytes> = Vec::with_capacity(256);
        let mut i: usize = 0;
        while i < 256
            invariant
                i <= 256,
                tokens@.len() == i,
                forall|j: int| 0 <= j < i ==> bytes_contents(#[trigger] tokens@[j]) == seq![j as u8],
            decreases 256 - i,
        {
            let mut single: Vec<u8> = Vec::new();
            single.push(i as u8);
            tokens.push(bytes_from_slice(single.as_slice()));
            i += 1;
        }
        let vocab = Vocabulary { tokens };
        assert(vocab@ =~= base_vocabulary());
        vocab
    }

    /// The number of ids.
    pub fn len(&self) -> (n: usize)
        ensures
            n == self@.len(),
    {
        self.tokens.len()
    }

    /// The byte string of `id`, where the vocabulary has that id.
    pub fn token(&self, id: u32) -> (token: Option<&[u8]>)
        ensures
            id < self@.len() ==> token is Some && token->Some_0@ == self@[id as int],
            id >= self@.len() ==> token is None,
    {
        let at = id as usize;
        if at < self.tokens.len() {
            Some(bytes_as_slice(&self.tokens[at]))
        } else {
            None
        }
    }

    /// Adds the id that stands for `left` followed by `right`: its byte
    /// string is that of `left` with that of `right` behind it.
    pub fn mint(&mut self, left: u32, right: u32)
        requires
            left < old(self)@.len(),
            right < old(self)@.len(),
            old(self)@[left as int].len() + old(self)@[right as int].len() <= usize::MAX,
        ensures
            final(self)@ == old(self)@.push(old(self)@[left as int] + old(self)@[right as int]),
    {
        let joined = concat(&self.tokens[left as usize], &self.tokens[right as usize]);
        self.tokens.push(joined);
        assert(self@ =~= old(self)@.push(old(self)@[left as int] + old(self)@[right as int]));
    }
}

} // verus!
