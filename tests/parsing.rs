use parsekit::{
    interleaved, n, numbers, parse_untilb, parse_while, parse_whileb, string, token, u64, whitespace,
    Error, Parser, Token, Uint, Whitespace,
};

#[test]
fn test_foo() {
    assert_eq!(u64(&mut "0").unwrap(), 0u64);
    assert_eq!(u64(&mut "18446744073709551615").unwrap(), !0u64);
    assert!(u64(&mut "18446744073709551616").is_err());
    assert_eq!(u64(&mut "1234").unwrap(), 1234u64);
    assert_eq!(
        numbers(&mut "123 456 789 0"),
        vec![123u64, 456u64, 789u64, 0u64]
    );

    assert_eq!(n(4).parse_next(&mut "123456").unwrap(), "1234".to_string());
    assert!(n(4).parse_next(&mut "123").is_err());

    assert_eq!(string("hello").parse_next(&mut "hello world").unwrap(), "hello");
}

#[test]
fn uint_reads_decimal_and_consumes_it() {
    for v in [0u64, 7, 10, 99, 100, 65535, 1 << 32, 12345678901234567890, u64::MAX] {
        let text = v.to_string();
        let mut inp: &str = &text;
        assert_eq!(u64(&mut inp), Ok(v));
        assert_eq!(inp, "");
    }
    let mut inp = "42 rest";
    assert_eq!(u64(&mut inp), Ok(42));
    assert_eq!(inp, " rest");
}

#[test]
fn uint_overflow_fails_and_restores() {
    let mut inp = "18446744073709551616";
    assert_eq!(u64(&mut inp), Err(Error::Backtrack));
    assert_eq!(inp, "18446744073709551616");
    let mut inp = "99999999999999999999999 1";
    assert_eq!(u64(&mut inp), Err(Error::Backtrack));
    assert_eq!(inp, "99999999999999999999999 1");
}

#[test]
fn uint_without_digits_fails() {
    let mut inp = "abc";
    assert_eq!(u64(&mut inp), Err(Error::Backtrack));
    assert_eq!(inp, "abc");
    let mut inp = "";
    assert_eq!(u64(&mut inp), Err(Error::Backtrack));
}

#[test]
fn numbers_reads_a_run() {
    let mut inp = "123 456 789 0";
    assert_eq!(numbers(&mut inp), vec![123, 456, 789, 0]);
    assert_eq!(inp, "");
}

#[test]
fn numbers_stops_at_a_word() {
    let mut inp = "1  2\nx 3";
    assert_eq!(numbers(&mut inp), vec![1, 2]);
    assert_eq!(inp, "x 3");
    let mut inp = "";
    assert_eq!(numbers(&mut inp), Vec::<u64>::new());
}

#[test]
fn fixed_length_takes_n_chars() {
    let mut inp = "123456";
    assert_eq!(n(4).parse_next(&mut inp), Ok("1234".to_string()));
    assert_eq!(inp, "56");
}

#[test]
fn fixed_length_shortfall_restores() {
    let mut inp = "123";
    assert_eq!(n(4).parse_next(&mut inp), Err(Error::Backtrack));
    assert_eq!(inp, "123");
    let mut inp = "12 3456";
    assert_eq!(n(4).parse_next(&mut inp), Err(Error::Backtrack));
    assert_eq!(inp, "12 3456");
}

#[test]
fn fixed_length_counts_characters() {
    let mut inp = "héllo!";
    assert_eq!(n(5).parse_next(&mut inp), Ok("héllo".to_string()));
    assert_eq!(inp, "!");
}

#[test]
fn literal_matches() {
    let mut inp = "hello world";
    assert_eq!(string("hello").parse_next(&mut inp), Ok("hello".to_string()));
    assert_eq!(inp, " world");
}

#[test]
fn literal_mismatch_restores() {
    let mut inp = "help world";
    assert_eq!(string("hello").parse_next(&mut inp), Err(Error::Backtrack));
    assert_eq!(inp, "help world");
    let mut inp = "helping";
    assert_eq!(string("hello").parse_next(&mut inp), Err(Error::Backtrack));
    assert_eq!(inp, "helping");
}

#[test]
fn literal_shortfall_restores() {
    let mut inp = "hel";
    assert_eq!(string("hello").parse_next(&mut inp), Err(Error::Backtrack));
    assert_eq!(inp, "hel");
}

#[test]
fn token_takes_a_word() {
    let mut inp = "foo\tbar";
    assert_eq!(token(&mut inp), Ok("foo".to_string()));
    assert_eq!(inp, "\tbar");
    let mut inp = " foo";
    assert_eq!(token(&mut inp), Ok(String::new()));
    assert_eq!(inp, " foo");
}

#[test]
fn whitespace_skips_space() {
    let mut inp = " \t\n x";
    assert_eq!(whitespace(&mut inp), Ok(()));
    assert_eq!(inp, "x");
    let mut inp = "x";
    assert_eq!(whitespace(&mut inp), Ok(()));
    assert_eq!(inp, "x");
}

#[test]
fn scanners_take_while_and_until() {
    let mut inp = "aab";
    assert_eq!(parse_whileb(&mut inp, |c| c == 'a'), "aa");
    assert_eq!(inp, "b");
    let mut inp = "xyz;rest";
    assert_eq!(parse_untilb(&mut inp, |c| c == ';'), "xyz");
    assert_eq!(inp, ";rest");
    let mut inp = "";
    assert_eq!(parse_whileb(&mut inp, |c| c == 'a'), "");
}

#[test]
fn repeat_collects_in_order() {
    let mut inp = "abcdef";
    assert_eq!(parse_while(&mut inp, n(2)), vec!["ab", "cd", "ef"]);
    assert_eq!(inp, "");
    let mut inp = "abcde";
    assert_eq!(parse_while(&mut inp, n(2)), vec!["ab", "cd"]);
    assert_eq!(inp, "e");
    let mut inp = "hihihello";
    assert_eq!(parse_while(&mut inp, string("hi")), vec!["hi", "hi"]);
    assert_eq!(inp, "hello");
}

#[test]
fn repeat_stops_after_empty_match() {
    let mut inp = "abc";
    assert_eq!(parse_while(&mut inp, n(0)), vec![""]);
    assert_eq!(inp, "abc");
}

#[test]
fn repeat_of_infallible_parser_ends_on_empty_match() {
    let mut inp = "12 x";
    assert_eq!(parse_while(&mut inp, Token), vec!["12".to_string(), String::new()]);
    assert_eq!(inp, " x");
    let mut inp = "12";
    assert_eq!(parse_while(&mut inp, Uint), vec![12]);
    assert_eq!(inp, "");
}

#[test]
fn interleaved_first_item_fails() {
    let mut inp = "x 1 2";
    assert_eq!(interleaved(&mut inp, Uint, Whitespace), Vec::<u64>::new());
    assert_eq!(inp, "x 1 2");
}

#[test]
fn interleaved_words() {
    let mut inp = "a bb  ccc";
    assert_eq!(interleaved(&mut inp, Token, Whitespace), vec!["a", "bb", "ccc", ""]);
    assert_eq!(inp, "");
    let mut inp = "ab cd e";
    assert_eq!(interleaved(&mut inp, n(2), Whitespace), vec!["ab", "cd"]);
    assert_eq!(inp, "e");
}
