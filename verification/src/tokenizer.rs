//! The tokenizer: training, encoding, decoding and the text form of what was
//! learned.

use crate::byte_string::{buffer_contents, buffer_extend, buffer_freeze, buffer_new, bytes_as_slice};
use crate::decoder::{decoded, lemma_expansion_of_prefix};
use crate::encoder::{
    apply_rules, first_applicable, lemma_apply_fixed, lemma_apply_rules, lemma_first_applicable,
    next_rule, to_ids,
};
use crate::listing::{merge_line, merges_listing, vocab_line, vocab_listing};
use crate::merge_table::MergeTable;
use crate::merger::{lemma_merge_length, merge};
use crate::pairs::most_frequent_pair;
use crate::text::{string_from_utf8, string_from_utf8_lossy};
use crate::trainer::{
    learn, lemma_most_frequent_exists, lemma_training_starts, lemma_training_step, trained_rules,
    training_state,
};
use crate::vocab::{
    byte_ids, expansion, ids_below, lemma_expansion_agrees, lemma_expansion_holds_pair,
    lemma_expansion_merge, lemma_expansion_of_bytes, lemma_vocabulary, lemma_vocabulary_grows,
    rules_valid, vocabulary_of, Vocabulary,
};
use vstd::prelude::*;
use vstd::slice::slice_to_vec;
use vstd::string::StringSliceAdditionalSpecFns;
use vstd::utf8::{encode_utf8_decode_utf8, encode_utf8_valid_utf8};

verus! {

/// Why training or decoding failed.
#[derive(Debug, Clone, Copy, PartialEq, Eq, Structural)]
pub enum TokenizerError {
    /// The vocabulary asked for is smaller than the 256 single bytes.
    InvalidConfiguration,
    /// The ids do not stand for a text: one of them is not in the vocabulary,
    /// or the bytes that they expand to are not valid UTF-8, or are more
    /// than a string can hold.
    InvalidEncoding,
}

/// One merge of a training run, as a verbose run reports it.
#[derive(Debug)]
pub struct MergeRecord {
    /// The number of the round, counted from 1.
    pub round: usize,
    /// The pair that was merged.
    pub pair: (u32, u32),
    /// The id that the pair was merged into.
    pub minted: u32,
    /// The byte string of that id.
    pub token: Vec<u8>,
}

impl MergeRecord {
    /// The record is that of rule `k` of `rules`.
    pub open spec fn describes(&self, rules: Seq<(u32, u32)>, k: int) -> bool {
        &&& self.round == k + 1
        &&& self.pair == rules[k]
        &&& self.minted == 256 + k
        &&& self.token@ == vocabulary_of(rules)[256 + k]
    }
}

/// How a training run went.
#[derive(Debug)]
pub struct TrainingReport {
    /// The number of merges asked for: the vocabulary size less 256.
    pub requested: usize,
    /// The number of merges made. It is lower than `requested` where the
    /// text ran out of pairs.
    pub performed: usize,
    /// One record for each merge, in order, if the run was verbose; else
    /// nothing.
    pub records: Vec<MergeRecord>,
}

impl TrainingReport {
    /// The report is that of a run which asked for `vocab_size` ids and
    /// learned `rules`.
    pub open spec fn describes(
        &self,
        rules: Seq<(u32, u32)>,
        vocab_size: usize,
        verbose: bool,
    ) -> bool {
        &&& self.requested == vocab_size - 256
        &&& self.performed == rules.len()
        &&& self.performed <= self.requested
        &&& self.records@.len() == if verbose {
            rules.len()
        } else {
            0
        }
        &&& forall|k: int|
            0 <= k < self.records@.len() ==> (#[trigger] self.records@[k]).describes(rules, k)
    }
}

/// A byte-pair tokenizer.
///
/// What a tokenizer has learned is its list of merge rules, in the order in
/// which they were learned: rule `k` merges a pair of ids into the id
/// `256 + k`. The vocabulary follows from the rules (`vocabulary_of`).
pub trait Tokenize {
    /// The merge rules that the tokenizer holds.
    spec fn merge_rules(&self) -> Seq<(u32, u32)>;

    /// The merge rules that training on the bytes `text` learns for a
    /// vocabulary of `vocab_size` ids.
    spec fn learns(text: Seq<u8>, vocab_size: int) -> Seq<(u32, u32)>;

    /// The ids that the bytes `text` are encoded to.
    spec fn encoding(&self, text: Seq<u8>) -> Seq<u32>;

    /// Learns merge rules from `text` until the vocabulary has `vocab_size`
    /// ids or nothing is left to merge. What the tokenizer held before is
    /// replaced.
    ///
    /// A `vocab_size` below 256 is refused before any work is done, and the
    /// tokenizer stays as it was.
    fn train(&mut self, text: &str, vocab_size: usize, verbose: bool) -> (outcome: Result<
        TrainingReport,
        TokenizerError,
    >)
        ensures
            vocab_size < 256 ==> outcome == Err::<TrainingReport, TokenizerError>(
                TokenizerError::InvalidConfiguration,
            ) && final(self).merge_rules() == old(self).merge_rules(),
            vocab_size >= 256 ==> outcome is Ok && final(self).merge_rules() == Self::learns(
                text.spec_bytes(),
                vocab_size as int,
            ) && outcome->Ok_0.describes(final(self).merge_rules(), vocab_size, verbose),
    ;

    /// Encodes `text`. The ids that come back decode to `text` again.
    fn encode(&self, text: &str) -> (ids: Vec<u32>)
        ensures
            ids@ == self.encoding(text.spec_bytes()),
            decoded(vocabulary_of(self.merge_rules()), ids@) == Some(text@),
    ;

    /// Decodes `ids` to the text that they stand for.
    fn decode(&self, ids: &[u32]) -> (text: Result<String, TokenizerError>)
        ensures
            match text {
                Ok(s) => decoded(vocabulary_of(self.merge_rules()), ids@) == Some(s@),
                Err(e) => e == TokenizerError::InvalidEncoding && decoded(
                    vocabulary_of(self.merge_rules()),
                    ids@,
                ) is None,
            },
    ;

    /// Writes out what the tokenizer holds: first the vocabulary listing,
    /// then the merges listing, each as the bytes of a text file.
    fn save(&self) -> (files: (Vec<u8>, Vec<u8>))
        ensures
            files.0@ == vocab_listing(vocabulary_of(self.merge_rules())),
            files.1@ == merges_listing(self.merge_rules()),
    ;
}

/// The tokenizer that works on the bytes of the whole text.
pub struct BasicTokenizer {
    vocab: Vocabulary,
    merges: MergeTable,
}

impl BasicTokenizer {
    /// The merge table is well formed, and the vocabulary is the one that
    /// its rules stand for.
    #[verifier::type_invariant]
    pub closed spec fn wf(&self) -> bool {
        &&& self.merges.wf()
        &&& self.vocab@ == vocabulary_of(self.merges@)
    }

    /// A tokenizer that has learned nothing: its vocabulary is the 256
    /// single bytes.
    pub fn new() -> (tokenizer: Self)
        ensures
            tokenizer.wf(),
            tokenizer.merge_rules() == Seq::<(u32, u32)>::empty(),
    {
        BasicTokenizer { vocab: Vocabulary::seeded(), merges: MergeTable::new() }
    }

    /// The rules of a well-formed tokenizer are valid.
    pub proof fn lemma_rules_valid(&self)
        requires
            self.wf(),
        ensures
            rules_valid(self.merge_rules()),
    {
        self.merges.lemma_wf_rules();
    }
}

impl Tokenize for BasicTokenizer {
    closed spec fn merge_rules(&self) -> Seq<(u32, u32)> {
        self.merges@
    }

    open spec fn learns(text: Seq<u8>, vocab_size: int) -> Seq<(u32, u32)> {
        trained_rules(text, vocab_size)
    }

    open spec fn encoding(&self, text: Seq<u8>) -> Seq<u32> {
        apply_rules(self.merge_rules(), byte_ids(text))
    }

    fn train(&mut self, text: &str, vocab_size: usize, verbose: bool) -> (outcome: Result<
        TrainingReport,
        TokenizerError,
    >)
        ensures
            final(self).wf(),
    {
        proof {
            use_type_invariant(&*self);
        }
        if vocab_size < 256 {
            return Err(TokenizerError::InvalidConfiguration);
        }
        let requested: usize = vocab_size - 256;
        let bytes = text.as_bytes();
        let mut ids: Vec<u32> = to_ids(bytes);
        let mut vocab = Vocabulary::seeded();
        let mut merges = MergeTable::new();
        let mut records: Vec<MergeRecord> = Vec::new();
        let mut round: usize = 0;
        proof {
            lemma_training_starts(bytes@);
            lemma_expansion_of_bytes(Seq::empty(), bytes@);
        }
        assert(bytes@.len() == bytes.len());
        while round < requested && ids.len() >= 2 && vocab.len() <= 0xFFFF_FFFF
            invariant
                round <= requested,
                bytes@.len() <= usize::MAX,
                vocab@.len() == 256 + merges@.len(),
                merges.wf(),
                merges@.len() == round,
                vocab@ == vocabulary_of(merges@),
                training_state(ids@, merges@),
                expansion(vocab@, ids@) == bytes@,
                learn(ids@, merges@, (requested - round) as nat) == learn(
                    byte_ids(bytes@),
                    Seq::empty(),
                    requested as nat,
                ),
                records@.len() == if verbose {
                    round
                } else {
                    0
                },
                forall|k: int|
                    0 <= k < records@.len() ==> (#[trigger] records@[k]).describes(merges@, k),
            decreases requested - round,
        {
            let ghost rules = merges@;
            let ghost before = vocab@;
            proof {
                lemma_most_frequent_exists(ids@);
                lemma_vocabulary(rules);
            }
            let pair: (u32, u32) = most_frequent_pair(ids.as_slice()).unwrap();
            let minted: u32 = vocab.len() as u32;
            proof {
                lemma_training_step(ids@, rules, pair);
                lemma_expansion_holds_pair(before, ids@, pair);
                lemma_vocabulary_grows(rules, pair);
            }
            let merged = merge(ids.as_slice(), pair, minted);
            vocab.mint(pair.0, pair.1);
            merges.record(pair);
            proof {
                lemma_expansion_agrees(before, vocab@, ids@);
                lemma_expansion_merge(vocab@, ids@, pair, minted);
            }
            let ghost earlier = records@;
            if verbose {
                let token = slice_to_vec(vocab.token(minted).unwrap());
                records.push(MergeRecord { round: round + 1, pair, minted, token });
                assert forall|k: int| 0 <= k < records@.len() implies (#[trigger] records@[k])
                    .describes(merges@, k) by {
                    if k < round {
                        assert(records@[k] == earlier[k]);
                    }
                }
            }
            ids = merged;
            round += 1;
            proof {
                lemma_vocabulary(merges@);
            }
        }
        *self = BasicTokenizer { vocab, merges };
        Ok(TrainingReport { requested, performed: round, records })
    }

    fn encode(&self, text: &str) -> (ids: Vec<u32>) {
        proof {
            use_type_invariant(self);
        }
        let bytes = text.as_bytes();
        assert(bytes@.len() == bytes.len());
        let mut ids: Vec<u32> = to_ids(bytes);
        let mut next = next_rule(&self.merges, ids.as_slice());
        while next.is_some()
            invariant
                self.merges.wf(),
                match next {
                    Some(k) => first_applicable(self.merges@, ids@, 0) == Some(k as int),
                    None => first_applicable(self.merges@, ids@, 0) is None,
                },
                apply_rules(self.merges@, ids@) == apply_rules(
                    self.merges@,
                    byte_ids(text.spec_bytes()),
                ),
            decreases ids@.len(),
        {
            let k = next.unwrap();
            proof {
                self.merges.lemma_wf_rules();
                lemma_first_applicable(self.merges@, ids@, 0);
                lemma_merge_length(ids@, self.merges@[k as int], (256 + k) as u32);
            }
            ids = merge(ids.as_slice(), self.merges.rule(k), (k + 256) as u32);
            next = next_rule(&self.merges, ids.as_slice());
        }
        proof {
            self.merges.lemma_wf_rules();
            lemma_vocabulary(self.merges@);
            lemma_expansion_of_bytes(self.merges@, bytes@);
            lemma_apply_rules(self.merges@, byte_ids(bytes@));
            lemma_apply_fixed(self.merges@, ids@);
            encode_utf8_valid_utf8(text@);
            encode_utf8_decode_utf8(text@);
        }
        ids
    }

    fn decode(&self, ids: &[u32]) -> (text: Result<String, TokenizerError>) {
        proof {
            use_type_invariant(self);
        }
        let mut buf = buffer_new();
        let mut filled: usize = 0;
        let mut i: usize = 0;
        assert(expansion(self.vocab@, ids@.take(0)) =~= Seq::<u8>::empty());
        while i < ids.len()
            invariant
                i <= ids.len(),
                self.vocab@ == vocabulary_of(self.merges@),
                ids_below(ids@.take(i as int), self.vocab@.len()),
                buffer_contents(buf) == expansion(self.vocab@, ids@.take(i as int)),
                filled == buffer_contents(buf).len(),
            decreases ids.len() - i,
        {
            proof {
                lemma_expansion_of_prefix(self.vocab@, ids@, i as int);
                lemma_expansion_of_prefix(self.vocab@, ids@, i + 1);
            }
            match self.vocab.token(ids[i]) {
                Some(token) => {
                    if token.len() > usize::MAX - filled {
                        assert(expansion(self.vocab@, ids@).len() > usize::MAX);
                        return Err(TokenizerError::InvalidEncoding);
                    }
                    buffer_extend(&mut buf, token);
                    filled += token.len();
                },
                None => {
                    assert(!ids_below(ids@, self.vocab@.len())) by {
                        assert(ids@[i as int] >= self.vocab@.len());
                    }
                    return Err(TokenizerError::InvalidEncoding);
                },
            }
            i += 1;
            assert(ids_below(ids@.take(i as int), self.vocab@.len())) by {
                let taken = ids@.take(i as int);
                assert forall|j: int| 0 <= j < taken.len() implies #[trigger] taken[j]
                    < self.vocab@.len() by {
                    if j < i - 1 {
                        assert(ids@.take(i - 1)[j] == ids@[j]);
                    }
                }
            }
        }
        assert(ids@.take(i as int) =~= ids@);
        let frozen = buffer_freeze(buf);
        let bytes = slice_to_vec(bytes_as_slice(&frozen));
        match string_from_utf8(bytes) {
            Ok(text) => {
                proof {
                    encode_utf8_valid_utf8(text@);
                    encode_utf8_decode_utf8(text@);
                }
                Ok(text)
            },
            Err(_) => Err(TokenizerError::InvalidEncoding),
        }
    }

    fn save(&self) -> (files: (Vec<u8>, Vec<u8>)) {
        proof {
            use_type_invariant(self);
            self.merges.lemma_wf_rules();
            lemma_vocabulary(self.merges@);
        }
        let mut vocab_file: Vec<u8> = Vec::new();
        let mut id: usize = 0;
        while id < self.vocab.len()
            invariant
                id <= self.vocab@.len() <= 0x1_0000_0000,
                vocab_file@ == vocab_listing(self.vocab@.take(id as int)),
            decreases self.vocab@.len() - id,
        {
            let token = self.vocab.token(id as u32).unwrap();
            let shown = string_from_utf8_lossy(token);
            let mut line = vocab_line(id as u64, shown.as_str());
            vocab_file.append(&mut line);
            id += 1;
            assert(self.vocab@.take(id as int).drop_last() =~= self.vocab@.take(id - 1));
        }
        assert(self.vocab@.take(id as int) =~= self.vocab@);
        let mut merges_file: Vec<u8> = Vec::new();
        let mut k: usize = 0;
        while k < self.merges.len()
            invariant
                k <= self.merges@.len(),
                256 + self.merges@.len() <= 0x1_0000_0000,
                merges_file@ == merges_listing(self.merges@.take(k as int)),
            decreases self.merges@.len() - k,
        {
            let pair = self.merges.rule(k);
            let mut line = merge_line(pair.0, pair.1, (k + 256) as u32);
            merges_file.append(&mut line);
            k += 1;
            assert(self.merges@.take(k as int).drop_last() =~= self.merges@.take(k - 1));
        }
        assert(self.merges@.take(k as int) =~= self.merges@);
        (vocab_file, merges_file)
    }
}

} // verus!
