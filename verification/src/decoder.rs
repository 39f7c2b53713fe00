//! What decoding yields: the text whose UTF-8 encoding is the expansion of a
//! token sequence.

use crate::vocab::{expansion, ids_below, lemma_expansion_concat};
use vstd::prelude::*;
use vstd::utf8::{decode_utf8, valid_utf8};

verus! {

/// The text that `ids` stands for under `vocab`. There is none where an id is
/// missing from the vocabulary, where the expansion is not valid UTF-8, and
/// where it is longer than any string that the machine can hold.
pub open spec fn decoded(vocab: Seq<Seq<u8>>, ids: Seq<u32>) -> Option<Seq<char>> {
    let bytes = expansion(vocab, ids);
    if ids_below(ids, vocab.len()) && bytes.len() <= usize::MAX && valid_utf8(bytes) {
        Some(decode_utf8(bytes))
    } else {
        None
    }
}

/// The expansion of the first `n` ids is the start of the whole expansion.
pub proof fn lemma_expansion_of_prefix(vocab: Seq<Seq<u8>>, ids: Seq<u32>, n: int)
    requires
        0 <= n <= ids.len(),
    ensures
        expansion(vocab, ids.take(n)).len() <= expansion(vocab, ids).len(),
        n < ids.len() ==> expansion(vocab, ids.take(n + 1)) == expansion(vocab, ids.take(n))
            + vocab[ids[n] as int],
{
    lemma_expansion_concat(vocab, ids.take(n), ids.skip(n));
    assert(ids.take(n) + ids.skip(n) =~= ids);
    if n < ids.len() {
        assert(ids.take(n + 1).drop_last() =~= ids.take(n));
    }
}

} // verus!
