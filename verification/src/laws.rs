//! What holds of every tokenizer, whatever it was trained on.

use crate::decoder::decoded;
use crate::encoder::{lemma_apply_no_rule, lemma_apply_rules, lemma_first_applicable};
use crate::pairs::occurs;
use crate::tokenizer::{BasicTokenizer, Tokenize};
use crate::trainer::{lemma_learn_count, lemma_learn_valid, lemma_training_starts};
use crate::vocab::{
    base_vocabulary, byte_ids, ids_below, lemma_expansion_of_bytes, lemma_vocabulary, rules_valid,
    vocabulary_of,
};
use vstd::prelude::*;
use vstd::utf8::{encode_utf8, encode_utf8_decode_utf8, encode_utf8_valid_utf8};

verus! {

/// Round trip: what a text is encoded to decodes to that text. This holds of
/// every text, with or without bytes that the training text had: the 256
/// single bytes are in every vocabulary.
pub proof fn lemma_round_trip(tokenizer: BasicTokenizer, text: Seq<char>)
    requires
        tokenizer.wf(),
        encode_utf8(text).len() <= usize::MAX,
    ensures
        decoded(
            vocabulary_of(tokenizer.merge_rules()),
            tokenizer.encoding(encode_utf8(text)),
        ) == Some(text),
{
    let rules = tokenizer.merge_rules();
    let bytes = encode_utf8(text);
    tokenizer.lemma_rules_valid();
    lemma_vocabulary(rules);
    lemma_expansion_of_bytes(rules, bytes);
    lemma_apply_rules(rules, byte_ids(bytes));
    encode_utf8_valid_utf8(text);
    encode_utf8_decode_utf8(text);
}

/// Encoding is stable: a text that has been encoded and decoded is encoded
/// to the same ids again.
pub proof fn lemma_encode_stable(tokenizer: BasicTokenizer, text: Seq<char>)
    requires
        tokenizer.wf(),
        encode_utf8(text).len() <= usize::MAX,
    ensures
        decoded(
            vocabulary_of(tokenizer.merge_rules()),
            tokenizer.encoding(encode_utf8(text)),
        ) matches Some(again) && tokenizer.encoding(encode_utf8(again)) == tokenizer.encoding(
            encode_utf8(text),
        ),
{
    lemma_round_trip(tokenizer, text);
}

/// Encoding yields ids of the vocabulary, never more ids than the text has
/// bytes, and a sequence to which no merge rule applies any more.
pub proof fn lemma_encoding_is_final(tokenizer: BasicTokenizer, text: Seq<u8>)
    requires
        tokenizer.wf(),
    ensures
        tokenizer.encoding(text).len() <= text.len(),
        ids_below(tokenizer.encoding(text), vocabulary_of(tokenizer.merge_rules()).len()),
        forall|k: int|
            0 <= k < tokenizer.merge_rules().len() ==> !occurs(
                tokenizer.encoding(text),
                #[trigger] tokenizer.merge_rules()[k],
            ),
{
    let rules = tokenizer.merge_rules();
    tokenizer.lemma_rules_valid();
    lemma_vocabulary(rules);
    lemma_expansion_of_bytes(rules, text);
    lemma_apply_rules(rules, byte_ids(text));
    lemma_first_applicable(rules, tokenizer.encoding(text), 0);
}

/// Where no merge rule applies to a text, it is encoded byte by byte: each
/// byte becomes the id of its value. So is every text by a tokenizer that
/// has learned nothing.
pub proof fn lemma_encode_without_merges(tokenizer: BasicTokenizer, text: Seq<u8>)
    requires
        forall|k: int|
            0 <= k < tokenizer.merge_rules().len() ==> !occurs(
                byte_ids(text),
                #[trigger] tokenizer.merge_rules()[k],
            ),
    ensures
        tokenizer.encoding(text) == byte_ids(text),
{
    lemma_apply_no_rule(tokenizer.merge_rules(), byte_ids(text));
}

/// Training for a vocabulary of 256 ids merges nothing: no rule is learned,
/// and the vocabulary is that of the single bytes.
pub proof fn lemma_train_base_only(text: Seq<u8>)
    ensures
        BasicTokenizer::learns(text, 256) == Seq::<(u32, u32)>::empty(),
        vocabulary_of(BasicTokenizer::learns(text, 256)) == base_vocabulary(),
{
}

/// Training learns valid rules, at most as many as were asked for and fewer
/// than the text has bytes. A text that is short of pairs therefore ends
/// training early: with `n` bytes it allows `n - 1` merges at most, and an
/// empty text none.
pub proof fn lemma_training_stops_early(text: Seq<u8>, vocab_size: int)
    requires
        vocab_size >= 256,
    ensures
        rules_valid(BasicTokenizer::learns(text, vocab_size)),
        BasicTokenizer::learns(text, vocab_size).len() <= vocab_size - 256,
        text.len() >= 1 ==> BasicTokenizer::learns(text, vocab_size).len() <= text.len() - 1,
        text.len() == 0 ==> BasicTokenizer::learns(text, vocab_size).len() == 0,
{
    if vocab_size > 256 {
        let rounds = (vocab_size - 256) as nat;
        lemma_training_starts(text);
        lemma_learn_valid(byte_ids(text), Seq::empty(), rounds);
        lemma_learn_count(byte_ids(text), Seq::empty(), rounds);
    }
}

} // verus!
