use toktokenizer::listing::{decimal_digits, merge_line, vocab_line};

#[test]
fn decimal_digits_of_small_and_large_numbers() {
    assert_eq!(decimal_digits(0), b"0");
    assert_eq!(decimal_digits(7), b"7");
    assert_eq!(decimal_digits(10), b"10");
    assert_eq!(decimal_digits(305), b"305");
    assert_eq!(decimal_digits(4_294_967_295), b"4294967295");
    assert_eq!(decimal_digits(u64::MAX), b"18446744073709551615");
}

#[test]
fn vocab_line_has_id_and_text() {
    assert_eq!(vocab_line(65, "A"), b"[65] -> (A)\n");
    assert_eq!(vocab_line(256, "th"), b"[256] -> (th)\n");
    assert_eq!(vocab_line(0, ""), b"[0] -> ()\n");
}

#[test]
fn vocab_line_keeps_text_beyond_ascii() {
    assert_eq!(vocab_line(300, "é🙄"), "[300] -> (é🙄)\n".as_bytes());
    assert_eq!(vocab_line(255, "\u{FFFD}"), "[255] -> (\u{FFFD})\n".as_bytes());
}

#[test]
fn merge_line_has_pair_and_minted_id() {
    assert_eq!(merge_line(97, 98, 256), b"[97][98] -> [256]\n");
    assert_eq!(merge_line(0, 0, 4_294_967_295), b"[0][0] -> [4294967295]\n");
}
