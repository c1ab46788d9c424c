use vstd::prelude::*;
use crate::chars::{
    decimal, digit_char, digit_len, digits_value, lemma_decimal, is_digit, is_whitespace, lemma_run_len_at_least,
    lemma_run_len_bound, lemma_run_len_split,
    space_char, space_len, white_space, word_char, word_len,
};
use crate::error::Error;
use crate::parser::{Parser, restores_on_failure, view_result};
use crate::scan::{parse_untilb, parse_whileb};

verus! {

/// What `token` does to the remainder `s`.
pub open spec fn token_outcome(s: Seq<char>) -> (Result<Seq<char>, Error>, Seq<char>) {
    (Ok(s.take(word_len(s) as int)), s.skip(word_len(s) as int))
}

/// Consumes the longest run of characters that are not white space and
/// returns it. Never fails.
pub fn token(inp: &mut &str) -> (r: Result<String, Error>)
    ensures
        (view_result(r), final(inp)@) == token_outcome(old(inp)@),
{
    let ghost start = (*inp)@;
    let space = |c: char| -> (b: bool)
        ensures
            b == white_space(c),
    {
        is_whitespace(c)
    };
    let output = parse_untilb(inp, space);
    proof {
        lemma_run_len_split(start, output@, (*inp)@, word_char());
        assert(start.take(output@.len() as int) =~= output@);
        assert(start.skip(output@.len() as int) =~= (*inp)@);
    }
    Ok(output)
}

/// What `whitespace` does to the remainder `s`.
pub open spec fn whitespace_outcome(s: Seq<char>) -> (Result<(), Error>, Seq<char>) {
    (Ok(()), s.skip(space_len(s) as int))
}

/// Consumes the longest run of white space. Never fails.
pub fn whitespace(inp: &mut &str) -> (r: Result<(), Error>)
    ensures
        (view_result(r), final(inp)@) == whitespace_outcome(old(inp)@),
{
    let ghost start = (*inp)@;
    let space = |c: char| -> (b: bool)
        ensures
            b == white_space(c),
    {
        is_whitespace(c)
    };
    let output = parse_whileb(inp, space);
    proof {
        lemma_run_len_split(start, output@, (*inp)@, space_char());
        assert(start.skip(output@.len() as int) =~= (*inp)@);
    }
    Ok(())
}

/// What `u64` does to the remainder `s`: the leading digits are read as a
/// decimal numeral; with no digit, or a value past `u64::MAX`, it fails and
/// consumes nothing.
pub open spec fn uint_outcome(s: Seq<char>) -> (Result<u64, Error>, Seq<char>) {
    let d = s.take(digit_len(s) as int);
    if d.len() == 0 || digits_value(d) > u64::MAX {
        (Err(Error::Backtrack), s)
    } else {
        (Ok(digits_value(d) as u64), s.skip(d.len() as int))
    }
}

/// Reading the decimal numeral of any `v` gives `v` back and consumes
/// exactly that numeral, whatever follows it that does not start with a digit.
pub proof fn lemma_uint_reads_decimal(v: u64, rest: Seq<char>)
    requires
        rest.len() > 0 ==> !is_digit(rest[0]),
    ensures
        uint_outcome(decimal(v as nat) + rest) == (Ok::<u64, Error>(v), rest),
{
    let d = decimal(v as nat);
    let s = d + rest;
    lemma_decimal(v as nat);
    lemma_run_len_split(s, d, rest, digit_char());
    assert(s.take(d.len() as int) =~= d);
    assert(s.skip(d.len() as int) =~= rest);
}

/// Reads a run of ASCII digits as a decimal numeral, or `None` past `u64::MAX`.
fn decimal_value(d: &str) -> (r: Option<u64>)
    requires
        forall|i: int| 0 <= i < d@.len() ==> is_digit(d@[i]),
    ensures
        r == (if digits_value(d@) <= u64::MAX {
            Some(digits_value(d@) as u64)
        } else {
            None
        }),
{
    let len: usize = d.unicode_len();
    let mut value: u64 = 0;
    let mut over: bool = false;
    let mut k: usize = 0;
    while k < len
        invariant
            len == d@.len(),
            k <= len,
            forall|i: int| 0 <= i < d@.len() ==> is_digit(d@[i]),
            over ==> digits_value(d@.take(k as int)) > u64::MAX,
            !over ==> value == digits_value(d@.take(k as int)),
        decreases len - k,
    {
        let c = d.get_char(k);
        let digit: u64 = (c as u32 - '0' as u32) as u64;
        proof {
            assert(d@.take(k + 1).drop_last() =~= d@.take(k as int));
            assert(d@.take(k + 1).last() == c);
        }
        if !over {
            if value <= (u64::MAX - digit) / 10 {
                value = value * 10 + digit;
            } else {
                over = true;
            }
        }
        k = k + 1;
    }
    proof {
        assert(d@.take(len as int) =~= d@);
    }
    if over {
        None
    } else {
        Some(value)
    }
}

/// Consumes the leading run of ASCII digits and returns its value. Fails
/// with `Backtrack`, leaving the remainder as it was, when the run is empty
/// or its value does not fit in 64 bits.
pub fn u64(inp: &mut &str) -> (r: Result<u64, Error>)
    ensures
        (view_result(r), final(inp)@) == uint_outcome(old(inp)@),
{
    let start: &str = *inp;
    let digit = |c: char| -> (b: bool)
        ensures
            b == is_digit(c),
    {
        '0' <= c && c <= '9'
    };
    let output = parse_whileb(inp, digit);
    proof {
        lemma_run_len_split(start@, output@, (*inp)@, digit_char());
        assert(start@.take(output@.len() as int) =~= output@);
        assert(start@.skip(output@.len() as int) =~= (*inp)@);
    }
    if output.unicode_len() == 0 {
        *inp = start;
        return Err(Error::Backtrack);
    }
    match decimal_value(output.as_str()) {
        Some(v) => Ok(v),
        None => {
            *inp = start;
            Err(Error::Backtrack)
        },
    }
}

/// What `FixedLength { n }` does to the remainder `s`: it takes the first
/// `n` characters when none of them is white space, and otherwise fails and
/// consumes nothing.
pub open spec fn fixed_outcome(n: nat, s: Seq<char>) -> (Result<Seq<char>, Error>, Seq<char>) {
    if word_len(s) >= n {
        (Ok(s.take(n as int)), s.skip(n as int))
    } else {
        (Err(Error::Backtrack), s)
    }
}

/// Parses exactly `n` characters, none of them white space.
pub struct FixedLength {
    pub n: usize,
}

/// The parser of exactly `count` characters, none of them white space.
pub fn n(count: usize) -> (r: FixedLength)
    ensures
        r.n == count,
{
    FixedLength { n: count }
}

impl Parser<String> for FixedLength {
    open spec fn outcome(&self, input: Seq<char>) -> (Result<Seq<char>, Error>, Seq<char>) {
        fixed_outcome(self.n as nat, input)
    }

    proof fn lemma_outcome_suffix(&self, input: Seq<char>) {
        lemma_run_len_bound(input, word_char());
    }

    fn parse_next(&self, input: &mut &str) -> (r: Result<String, Error>) {
        let s: &str = *input;
        let len: usize = s.unicode_len();
        let mut k: usize = 0;
        while k < self.n && k < len
            invariant
                len == s@.len(),
                k <= len,
                k <= self.n,
                forall|i: int| 0 <= i < k ==> !white_space(s@[i]),
            ensures
                k < self.n ==> (k == len || white_space(s@[k as int])),
            decreases len - k,
        {
            if is_whitespace(s.get_char(k)) {
                break;
            }
            k = k + 1;
        }
        proof {
            lemma_run_len_at_least(s@, word_char(), self.n as nat);
        }
        if k < self.n {
            return Err(Error::Backtrack);
        }
        let taken = s.substring_char(0, k);
        *input = s.substring_char(k, len);
        Ok(taken.to_owned())
    }
}

/// What `Literal { text }` does to the remainder `s`: it takes `text` when
/// the remainder starts with it and `text` holds no white space, and
/// otherwise fails and consumes nothing.
pub open spec fn literal_outcome(text: Seq<char>, s: Seq<char>) -> (Result<Seq<char>, Error>, Seq<char>) {
    if word_len(s) >= text.len() && s.take(text.len() as int) == text {
        (Ok(text), s.skip(text.len() as int))
    } else {
        (Err(Error::Backtrack), s)
    }
}

/// Parses a fixed text.
pub struct Literal {
    pub text: String,
}

/// The parser of the text `constant`.
pub fn string(constant: &str) -> (r: Literal)
    ensures
        r.text@ == constant@,
{
    Literal { text: constant.to_owned() }
}

impl Parser<String> for Literal {
    open spec fn outcome(&self, input: Seq<char>) -> (Result<Seq<char>, Error>, Seq<char>) {
        literal_outcome(self.text@, input)
    }

    proof fn lemma_outcome_suffix(&self, input: Seq<char>) {
        lemma_run_len_bound(input, word_char());
    }

    fn parse_next(&self, input: &mut &str) -> (r: Result<String, Error>) {
        let start: &str = *input;
        let word = FixedLength { n: self.text.as_str().unicode_len() };
        match word.parse_next(input) {
            Ok(read) => {
                if read == self.text {
                    Ok(read)
                } else {
                    *input = start;
                    Err(Error::Backtrack)
                }
            },
            Err(e) => Err(e),
        }
    }
}

/// `token` as a parser value.
pub struct Token;

impl Parser<String> for Token {
    open spec fn outcome(&self, input: Seq<char>) -> (Result<Seq<char>, Error>, Seq<char>) {
        token_outcome(input)
    }

    proof fn lemma_outcome_suffix(&self, input: Seq<char>) {
        lemma_run_len_bound(input, word_char());
    }

    fn parse_next(&self, input: &mut &str) -> (r: Result<String, Error>) {
        token(input)
    }
}

/// `u64` as a parser value.
pub struct Uint;

impl Parser<u64> for Uint {
    open spec fn outcome(&self, input: Seq<char>) -> (Result<u64, Error>, Seq<char>) {
        uint_outcome(input)
    }

    proof fn lemma_outcome_suffix(&self, input: Seq<char>) {
        lemma_run_len_bound(input, digit_char());
    }

    fn parse_next(&self, input: &mut &str) -> (r: Result<u64, Error>) {
        u64(input)
    }
}

/// `whitespace` as a parser value.
pub struct Whitespace;

impl Parser<()> for Whitespace {
    open spec fn outcome(&self, input: Seq<char>) -> (Result<(), Error>, Seq<char>) {
        whitespace_outcome(input)
    }

    proof fn lemma_outcome_suffix(&self, input: Seq<char>) {
        lemma_run_len_bound(input, space_char());
    }

    fn parse_next(&self, input: &mut &str) -> (r: Result<(), Error>) {
        whitespace(input)
    }
}

/// Every primitive that can fail backtracks: on failure it leaves the
/// remainder exactly as it was, so an alternative can be tried there.
pub proof fn lemma_primitives_restore(count: usize, text: String)
    ensures
        restores_on_failure(Uint),
        restores_on_failure(FixedLength { n: count }),
        restores_on_failure(Literal { text }),
{
}

} // verus!
