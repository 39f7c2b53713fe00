//! The text form of a tokenizer: one line for each id of the vocabulary and
//! one line for each merge rule.

use crate::text::lossy_text;
use vstd::prelude::*;
use vstd::slice::slice_to_vec;
use vstd::utf8::encode_utf8;

verus! {

/// ASCII `[`.
pub const BRACKET_OPEN: u8 = 0x5B;

/// ASCII `]`.
pub const BRACKET_CLOSE: u8 = 0x5D;

/// ASCII `(`.
pub const PAREN_OPEN: u8 = 0x28;

/// ASCII `)`.
pub const PAREN_CLOSE: u8 = 0x29;

/// ASCII space.
pub const SPACE: u8 = 0x20;

/// ASCII `-`.
pub const HYPHEN: u8 = 0x2D;

/// ASCII `>`.
pub const GREATER: u8 = 0x3E;

/// ASCII line feed.
pub const LINE_FEED: u8 = 0x0A;

/// ASCII `0`; the other digits follow it.
pub const DIGIT_ZERO: u8 = 0x30;

/// The decimal digits of `n` as ASCII bytes, without leading zeros.
pub open spec fn decimal(n: nat) -> Seq<u8>
    decreases n,
{
    if n < 10 {
        seq![(DIGIT_ZERO + n) as u8]
    } else {
        decimal(n / 10).push((DIGIT_ZERO + n % 10) as u8)
    }
}

/// The line of the vocabulary listing for `id`, whose byte string reads
/// `text`: `[<id>] -> (<text>)` and a line feed.
pub open spec fn vocab_line_spec(id: nat, text: Seq<char>) -> Seq<u8> {
    seq![BRACKET_OPEN] + decimal(id) + seq![BRACKET_CLOSE, SPACE, HYPHEN, GREATER, SPACE, PAREN_OPEN] + encode_utf8(text)
        + seq![PAREN_CLOSE, LINE_FEED]
}

/// The line of the merges listing for the rule that merges `left` and `right`
/// into `minted`: `[<left>][<right>] -> [<minted>]` and a line feed.
pub open spec fn merge_line_spec(left: nat, right: nat, minted: nat) -> Seq<u8> {
    seq![BRACKET_OPEN] + decimal(left) + seq![BRACKET_CLOSE, BRACKET_OPEN] + decimal(right) + seq![
        BRACKET_CLOSE,
        SPACE,
        HYPHEN,
        GREATER,
        SPACE,
        BRACKET_OPEN,
    ] + decimal(minted) + seq![BRACKET_CLOSE, LINE_FEED]
}

/// The vocabulary listing: the lines of all ids in ascending order. The byte
/// string of an id is shown as `lossy_text` reads it.
pub open spec fn vocab_listing(vocab: Seq<Seq<u8>>) -> Seq<u8>
    decreases vocab.len(),
{
    if vocab.len() == 0 {
        Seq::empty()
    } else {
        vocab_listing(vocab.drop_last()) + vocab_line_spec(
            (vocab.len() - 1) as nat,
            lossy_text(vocab.last()),
        )
    }
}

/// The merges listing: the lines of all rules in the order in which they were
/// learned. Rule `k` merges into id `256 + k`.
pub open spec fn merges_listing(rules: Seq<(u32, u32)>) -> Seq<u8>
    decreases rules.len(),
{
    if rules.len() == 0 {
        Seq::empty()
    } else {
        merges_listing(rules.drop_last()) + merge_line_spec(
            rules.last().0 as nat,
            rules.last().1 as nat,
            (256 + rules.len() - 1) as nat,
        )
    }
}

/// Writes `n` in decimal digits.
pub fn decimal_digits(n: u64) -> (digits: Vec<u8>)
    ensures
        digits@ == decimal(n as nat),
    decreases n,
{
    if n < 10 {
        let mut digits: Vec<u8> = Vec::new();
        digits.push(DIGIT_ZERO + n as u8);
        digits
    } else {
        let mut digits = decimal_digits(n / 10);
        digits.push(DIGIT_ZERO + (n % 10) as u8);
        digits
    }
}

/// Writes the line of the vocabulary listing for `id`, with `text` for what
/// its byte string reads.
pub fn vocab_line(id: u64, text: &str) -> (line: Vec<u8>)
    ensures
        line@ == vocab_line_spec(id as nat, text@),
{
    let mut line: Vec<u8> = Vec::new();
    line.push(BRACKET_OPEN);
    let mut digits = decimal_digits(id);
    line.append(&mut digits);
    line.push(BRACKET_CLOSE);
    line.push(SPACE);
    line.push(HYPHEN);
    line.push(GREATER);
    line.push(SPACE);
    line.push(PAREN_OPEN);
    let mut shown = slice_to_vec(text.as_bytes());
    line.append(&mut shown);
    line.push(PAREN_CLOSE);
    line.push(LINE_FEED);
    assert(line@ =~= vocab_line_spec(id as nat, text@));
    line
}

/// Writes the line of the merges listing for one rule.
pub fn merge_line(left: u32, right: u32, minted: u32) -> (line: Vec<u8>)
    ensures
        line@ == merge_line_spec(left as nat, right as nat, minted as nat),
{
    let mut line: Vec<u8> = Vec::new();
    line.push(BRACKET_OPEN);
    let mut digits = decimal_digits(left as u64);
    line.append(&mut digits);
    line.push(BRACKET_CLOSE);
    line.push(BRACKET_OPEN);
    let mut digits = decimal_digits(right as u64);
    line.append(&mut digits);
    line.push(BRACKET_CLOSE);
    line.push(SPACE);
    line.push(HYPHEN);
    line.push(GREATER);
    line.push(SPACE);
    line.push(BRACKET_OPEN);
    let mut digits = decimal_digits(minted as u64);
    line.append(&mut digits);
    line.push(BRACKET_CLOSE);
    line.push(LINE_FEED);
    assert(line@ =~= merge_line_spec(left as nat, right as nat, minted as nat));
    line
}

} // verus!
