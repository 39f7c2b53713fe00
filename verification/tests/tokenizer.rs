use toktokenizer::tokenizer::{BasicTokenizer, Tokenize, TokenizerError};

const CORPUS: &str = "Self driving cars are the future of transport, or so the story goes. \
The promise is simple: a car that sees the road, reads the signs and steers itself, \
while the people inside read, talk or sleep. The engineering is anything but simple. \
A driving system has to see in rain and in fog, in the glare of a low sun and in the dark; \
it has to tell a plastic bag from a stone, a shadow from a hole, a child from a post. \
It has to guess what the other drivers will do, and the other drivers are people. \
Self driving is the future! Whether that future is five years away or fifty, nobody knows, \
and the people who say they know have been wrong before. Still the work goes on: \
more sensors, more data, more miles on the road and many more miles in simulation. \
Each mile teaches the system something, and each mistake teaches the engineers more. \
The future of driving may well be no driving at all. \u{1F644} \u{1F644} \u{1F644} \
caf\u{e9} na\u{ef}ve r\u{e9}sum\u{e9} \u{2014} the quick brown fox jumps over the lazy dog. \
0123456789 0123456789 the the the and and and ing ing ing tion tion tion.";

const PHRASE: &str = "Self driving is the future! \u{1F644}";

fn trained(text: &str, vocab_size: usize) -> BasicTokenizer {
    let mut tokenizer = BasicTokenizer::new();
    tokenizer.train(text, vocab_size, false).unwrap();
    tokenizer
}

fn base_listing() -> Vec<u8> {
    let mut expected = String::new();
    for id in 0u32..256 {
        let shown = if id < 128 { char::from(id as u8) } else { '\u{FFFD}' };
        expected.push_str(&format!("[{}] -> ({})\n", id, shown));
    }
    expected.into_bytes()
}

#[test]
fn test_train() {
    let mut tokenizer = BasicTokenizer::new();
    let report = tokenizer.train(CORPUS, 500, false).unwrap();
    assert_eq!(report.requested, 244);
    assert_eq!(report.performed, 244);
    assert!(report.records.is_empty());
}

#[test]
fn test_encode() {
    let mut tokenizer = BasicTokenizer::new();
    tokenizer.train(CORPUS, 500, false).unwrap();
    let ids = tokenizer.encode(PHRASE);
    println!("{:?}", ids);
    assert!(ids.len() < PHRASE.len());
    assert!(ids.iter().all(|&id| id < 500));
}

#[test]
fn test_decode() {
    let mut tokenizer = BasicTokenizer::new();
    tokenizer.train(CORPUS, 500, false).unwrap();
    let s = PHRASE;

    let encoded = tokenizer.encode(s);
    assert_eq!(s, tokenizer.decode(&encoded).unwrap());
}

#[test]
fn train_learns_the_most_frequent_pair_each_round() {
    let mut tokenizer = BasicTokenizer::new();
    let report = tokenizer.train("aaabdaaabac", 259, true).unwrap();
    assert_eq!(report.requested, 3);
    assert_eq!(report.performed, 3);
    assert_eq!(report.records.len(), 3);
    assert_eq!(report.records[0].round, 1);
    assert_eq!(report.records[0].pair, (97, 97));
    assert_eq!(report.records[0].minted, 256);
    assert_eq!(report.records[0].token, b"aa");
    assert_eq!(report.records[1].round, 2);
    assert_eq!(report.records[1].pair, (97, 98));
    assert_eq!(report.records[1].minted, 257);
    assert_eq!(report.records[1].token, b"ab");
    assert_eq!(report.records[2].round, 3);
    assert_eq!(report.records[2].pair, (256, 257));
    assert_eq!(report.records[2].minted, 258);
    assert_eq!(report.records[2].token, b"aaab");
    assert_eq!(tokenizer.encode("aaabdaaabac"), [258, 100, 258, 97, 99]);
}

#[test]
fn train_without_verbose_keeps_no_records() {
    let mut tokenizer = BasicTokenizer::new();
    let report = tokenizer.train("aaabdaaabac", 259, false).unwrap();
    assert_eq!(report.performed, 3);
    assert!(report.records.is_empty());
}

#[test]
fn train_with_256_ids_merges_nothing() {
    let mut tokenizer = BasicTokenizer::new();
    let report = tokenizer.train(CORPUS, 256, true).unwrap();
    assert_eq!(report.requested, 0);
    assert_eq!(report.performed, 0);
    assert!(report.records.is_empty());
    let (vocab_file, merges_file) = tokenizer.save();
    assert_eq!(vocab_file, base_listing());
    assert!(merges_file.is_empty());
    assert_eq!(tokenizer.encode("abab"), [97, 98, 97, 98]);
}

#[test]
fn train_refuses_vocabulary_below_256() {
    let mut tokenizer = BasicTokenizer::new();
    for vocab_size in [0usize, 1, 100, 255] {
        let outcome = tokenizer.train(CORPUS, vocab_size, false);
        assert_eq!(outcome.unwrap_err(), TokenizerError::InvalidConfiguration);
    }
}

#[test]
fn refused_training_leaves_the_tokenizer_as_it_was() {
    let mut tokenizer = trained("aaabdaaabac", 259);
    let before = tokenizer.save();
    assert!(matches!(
        tokenizer.train("xyzxyzxyz", 255, true),
        Err(TokenizerError::InvalidConfiguration)
    ));
    assert_eq!(tokenizer.save(), before);
    assert_eq!(tokenizer.encode("aaabdaaabac"), [258, 100, 258, 97, 99]);
}

#[test]
fn train_stops_early_when_pairs_run_out() {
    let mut tokenizer = BasicTokenizer::new();
    let report = tokenizer.train("aaaa", 300, true).unwrap();
    assert_eq!(report.requested, 44);
    assert_eq!(report.performed, 2);
    assert_eq!(report.records.len(), 2);
    assert_eq!(report.records[0].pair, (97, 97));
    assert_eq!(report.records[1].pair, (256, 256));
    assert_eq!(report.records[1].token, b"aaaa");
    assert_eq!(tokenizer.encode("aaaa"), [257]);
    let (vocab_file, merges_file) = tokenizer.save();
    assert_eq!(merges_file, b"[97][97] -> [256]\n[256][256] -> [257]\n");
    assert!(vocab_file.ends_with(b"[256] -> (aa)\n[257] -> (aaaa)\n"));
}

#[test]
fn train_on_empty_and_single_byte_text_merges_nothing() {
    for text in ["", "a"] {
        let mut tokenizer = BasicTokenizer::new();
        let report = tokenizer.train(text, 300, true).unwrap();
        assert_eq!(report.requested, 44);
        assert_eq!(report.performed, 0);
        assert!(report.records.is_empty());
        assert!(tokenizer.save().1.is_empty());
    }
}

#[test]
fn train_replaces_what_was_learned_before() {
    let mut tokenizer = trained("aaabdaaabac", 259);
    tokenizer.train("xyxyxy", 257, false).unwrap();
    assert_eq!(tokenizer.save().1, b"[120][121] -> [256]\n");
    assert_eq!(tokenizer.encode("aaab"), [97, 97, 97, 98]);
    assert_eq!(tokenizer.encode("xyxy"), [256, 256]);
}

#[test]
fn train_is_repeatable() {
    let first = trained(CORPUS, 400).save();
    let second = trained(CORPUS, 400).save();
    assert_eq!(first, second);
}

#[test]
fn new_tokenizer_encodes_byte_by_byte() {
    let tokenizer = BasicTokenizer::new();
    assert_eq!(tokenizer.encode(""), Vec::<u32>::new());
    assert_eq!(tokenizer.encode("abc"), [97, 98, 99]);
    assert_eq!(tokenizer.encode("\u{e9}"), [195, 169]);
    assert_eq!(tokenizer.decode(&[97, 98, 99]).unwrap(), "abc");
    assert_eq!(tokenizer.save().0, base_listing());
}

#[test]
fn encode_applies_the_earliest_rule_first() {
    let tokenizer = trained("aaabdaaabac", 259);
    assert_eq!(tokenizer.encode("aab"), [256, 98]);
    assert_eq!(tokenizer.encode("ab"), [257]);
    assert_eq!(tokenizer.encode("aaab"), [258]);
    assert_eq!(tokenizer.encode("aaa"), [256, 97]);
    assert_eq!(tokenizer.encode("a"), [97]);
    assert_eq!(tokenizer.encode(""), Vec::<u32>::new());
}

#[test]
fn encode_takes_bytes_that_training_never_saw() {
    let tokenizer = trained("aaabdaaabac", 259);
    assert_eq!(tokenizer.encode("xyz"), [120, 121, 122]);
    assert_eq!(tokenizer.encode("\u{1F644}"), [240, 159, 153, 132]);
    assert_eq!(tokenizer.encode("xaay"), [120, 256, 121]);
    assert_eq!(tokenizer.decode(&tokenizer.encode("xyz \u{1F644}")).unwrap(), "xyz \u{1F644}");
}

#[test]
fn decode_gives_back_what_was_encoded() {
    let tokenizer = trained(CORPUS, 500);
    for text in ["", "a", PHRASE, CORPUS, "never seen: \u{4e2d}\u{6587} \u{1F600}", "\0\n\t"] {
        let ids = tokenizer.encode(text);
        assert_eq!(tokenizer.decode(&ids).unwrap(), text);
    }
}

#[test]
fn encoding_again_after_decoding_gives_the_same_ids() {
    let tokenizer = trained(CORPUS, 500);
    for text in ["", PHRASE, "the future of the future", "\u{e9}\u{e9}\u{e9}"] {
        let ids = tokenizer.encode(text);
        let again = tokenizer.decode(&ids).unwrap();
        assert_eq!(tokenizer.encode(&again), ids);
    }
}

#[test]
fn decode_joins_the_byte_strings_of_the_ids() {
    let tokenizer = trained("aaabdaaabac", 259);
    assert_eq!(tokenizer.decode(&[]).unwrap(), "");
    assert_eq!(tokenizer.decode(&[258, 100, 258, 97, 99]).unwrap(), "aaabdaaabac");
    assert_eq!(tokenizer.decode(&[257, 256, 98]).unwrap(), "abaab");
    assert_eq!(tokenizer.decode(&[195, 169]).unwrap(), "\u{e9}");
}

#[test]
fn decode_refuses_bytes_that_are_no_text() {
    let tokenizer = trained("aaabdaaabac", 259);
    assert_eq!(tokenizer.decode(&[255]), Err(TokenizerError::InvalidEncoding));
    assert_eq!(tokenizer.decode(&[195]), Err(TokenizerError::InvalidEncoding));
    assert_eq!(tokenizer.decode(&[97, 169, 98]), Err(TokenizerError::InvalidEncoding));
    assert_eq!(tokenizer.decode(&[240, 159, 153]), Err(TokenizerError::InvalidEncoding));
}

#[test]
fn decode_refuses_ids_outside_the_vocabulary() {
    let tokenizer = trained("aaabdaaabac", 259);
    assert_eq!(tokenizer.decode(&[259]), Err(TokenizerError::InvalidEncoding));
    assert_eq!(tokenizer.decode(&[97, u32::MAX]), Err(TokenizerError::InvalidEncoding));
    assert_eq!(BasicTokenizer::new().decode(&[256]), Err(TokenizerError::InvalidEncoding));
}

#[test]
fn save_lists_vocabulary_and_merges() {
    let tokenizer = trained("aaabdaaabac", 259);
    let (vocab_file, merges_file) = tokenizer.save();
    let mut expected = base_listing();
    expected.extend_from_slice(b"[256] -> (aa)\n[257] -> (ab)\n[258] -> (aaab)\n");
    assert_eq!(vocab_file, expected);
    assert_eq!(merges_file, b"[97][97] -> [256]\n[97][98] -> [257]\n[256][257] -> [258]\n");
}

#[test]
fn save_shows_text_beyond_ascii() {
    let tokenizer = trained("\u{e9}\u{e9}\u{e9}", 257);
    let (vocab_file, merges_file) = tokenizer.save();
    assert_eq!(merges_file, b"[195][169] -> [256]\n");
    assert!(vocab_file.ends_with("[255] -> (\u{FFFD})\n[256] -> (\u{e9})\n".as_bytes()));
}

#[test]
fn save_replaces_bytes_that_are_no_text() {
    let tokenizer = trained("\u{1F644}\u{1F644}", 257);
    let (vocab_file, merges_file) = tokenizer.save();
    assert_eq!(merges_file, b"[153][132] -> [256]\n");
    assert!(vocab_file.ends_with("[256] -> (\u{FFFD}\u{FFFD})\n".as_bytes()));
    assert!(String::from_utf8(vocab_file).is_ok());
}
