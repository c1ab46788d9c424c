//! A small parser-combinator toolkit over string input.
//!
//! The cursor is a `&mut &str` holding the unconsumed remainder of the input.
//! Every parser is described by a deterministic spec function from the
//! remainder before a call to the outcome and the remainder after it.
mod chars;
mod combinators;
mod error;
mod parser;
mod primitives;
mod scan;

pub use chars::{
    decimal, digit_char, digit_len, digit_of, digit_value, digits_value, is_digit, run_len, space_char,
    space_len, white_space, word_char, word_len,
};
pub use combinators::{
    after_matches, interleaved, interleaved_outcome, lemma_interleaved_first_item_fails,
    lemma_repeat_collects_matches, numbers, parse_while, repeat_outcome,
};
pub use error::Error;
pub use parser::{restores_on_failure, view_result, view_values, Parser};
pub use primitives::{
    fixed_outcome, lemma_primitives_restore, lemma_uint_reads_decimal, literal_outcome, n, string,
    token, token_outcome, u64, uint_outcome, whitespace, whitespace_outcome, FixedLength, Literal, Token, Uint, Whitespace,
};
pub use scan::{parse_untilb, parse_whileb};
