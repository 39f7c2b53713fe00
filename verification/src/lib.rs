//! A byte-level byte-pair tokenizer.
//!
//! Training learns merge rules from a text: round after round, the pair of
//! ids that occurs most often is merged into a new id. Encoding applies the
//! rules to a text in the order in which they were learned, and decoding
//! puts the byte strings of the ids together again. The contracts of the
//! functions say what each of them yields, and `laws` says what follows for
//! every tokenizer: foremost, that decoding gives back what was encoded.

pub mod byte_string;
pub mod decoder;
pub mod encoder;
pub mod laws;
pub mod listing;
pub mod merge_table;
pub mod merger;
pub mod pairs;
pub mod text;
pub mod tokenizer;
pub mod trainer;
pub mod vocab;
