use toktokenizer::merge_table::MergeTable;
use toktokenizer::vocab::Vocabulary;

#[test]
fn seeded_vocabulary_holds_the_single_bytes() {
    let vocab = Vocabulary::seeded();
    assert_eq!(vocab.len(), 256);
    assert_eq!(vocab.token(0), Some(&[0u8][..]));
    assert_eq!(vocab.token(65), Some(&b"A"[..]));
    assert_eq!(vocab.token(255), Some(&[255u8][..]));
    assert_eq!(vocab.token(256), None);
    assert_eq!(vocab.token(u32::MAX), None);
}

#[test]
fn minted_token_is_left_bytes_then_right_bytes() {
    let mut vocab = Vocabulary::seeded();
    vocab.mint(104, 105);
    assert_eq!(vocab.len(), 257);
    assert_eq!(vocab.token(256), Some(&b"hi"[..]));
    vocab.mint(256, 33);
    vocab.mint(257, 256);
    assert_eq!(vocab.len(), 259);
    assert_eq!(vocab.token(257), Some(&b"hi!"[..]));
    assert_eq!(vocab.token(258), Some(&b"hi!hi"[..]));
    assert_eq!(vocab.token(104), Some(&b"h"[..]));
}

#[test]
fn new_merge_table_is_empty() {
    let table = MergeTable::new();
    assert_eq!(table.len(), 0);
    assert_eq!(table.minted((1, 2)), None);
}

#[test]
fn merge_table_numbers_rules_from_256() {
    let mut table = MergeTable::new();
    table.record((97, 98));
    table.record((256, 99));
    table.record((98, 97));
    assert_eq!(table.len(), 3);
    assert_eq!(table.rule(0), (97, 98));
    assert_eq!(table.rule(1), (256, 99));
    assert_eq!(table.rule(2), (98, 97));
    assert_eq!(table.minted((97, 98)), Some(256));
    assert_eq!(table.minted((256, 99)), Some(257));
    assert_eq!(table.minted((98, 97)), Some(258));
    assert_eq!(table.minted((99, 256)), None);
}
