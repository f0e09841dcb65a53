use runner::text::{join_strings, parse_integer, replace, split, to_decimal, trim};
use runner::tokenizer::tokenize;

#[test]
fn trim_removes_white_space_at_both_ends() {
    assert_eq!(trim("  \t a b \r\n"), "a b");
    assert_eq!(trim(""), "");
    assert_eq!(trim(" \u{3000} "), "");
    assert_eq!(trim("x"), "x");
}

#[test]
fn split_keeps_empty_pieces() {
    assert_eq!(split("a:b", ':'), vec!["a", "b"]);
    assert_eq!(split("a::b:", ':'), vec!["a", "", "b", ""]);
    assert_eq!(split("", ':'), vec![""]);
}

#[test]
fn replace_takes_occurrences_from_the_left() {
    assert_eq!(replace("aaa", "aa", "b"), "ba");
    assert_eq!(replace("x$WDy$WD", "$WD", "/w"), "x/wy/w");
    assert_eq!(replace("abc", "", "z"), "abc");
    assert_eq!(replace("abc", "abcd", "z"), "abc");
}

#[test]
fn join_puts_the_separator_between() {
    let empty: Vec<String> = vec![];
    assert_eq!(join_strings(&empty, ","), "");
    assert_eq!(join_strings(&vec!["a".to_string()], ","), "a");
    assert_eq!(join_strings(&vec!["a".to_string(), "b".to_string(), "".to_string()], ", "), "a, b, ");
}

#[test]
fn decimal_has_no_leading_zeros() {
    assert_eq!(to_decimal(0), "0");
    assert_eq!(to_decimal(7), "7");
    assert_eq!(to_decimal(10), "10");
    assert_eq!(to_decimal(65535), "65535");
}

#[test]
fn integers_take_a_sign_and_digits() {
    assert_eq!(parse_integer("1234"), Some(1234));
    assert_eq!(parse_integer("+80"), Some(80));
    assert_eq!(parse_integer("-5"), Some(-5));
    assert_eq!(parse_integer("007"), Some(7));
    assert_eq!(parse_integer(""), None);
    assert_eq!(parse_integer("-"), None);
    assert_eq!(parse_integer("12a"), None);
    assert_eq!(parse_integer(" 12"), None);
    assert_eq!(parse_integer("9223372036854775807"), Some(isize::MAX));
    assert_eq!(parse_integer("-9223372036854775808"), Some(isize::MIN));
    assert_eq!(parse_integer("9223372036854775808"), None);
    assert_eq!(parse_integer("99999999999999999999999999999999999999999999"), None);
}

#[test]
fn tokens_are_words_and_quoted_parts() {
    assert_eq!(tokenize("/bin/sleep 1").unwrap(), vec!["/bin/sleep", "1"]);
    assert_eq!(tokenize("  a \t b\n").unwrap(), vec!["a", "b"]);
    assert_eq!(tokenize("echo \"hello  world\" x").unwrap(), vec!["echo", "hello  world", "x"]);
    assert_eq!(tokenize("a\"b c\"d").unwrap(), vec!["a", "b c", "d"]);
    assert_eq!(tokenize("\"\"").unwrap(), vec![""]);
    assert_eq!(tokenize("").unwrap(), Vec::<String>::new());
    assert_eq!(tokenize("   ").unwrap(), Vec::<String>::new());
}

#[test]
fn an_unclosed_quote_is_an_error() {
    let e = tokenize("echo \"abc").unwrap_err();
    assert_eq!(e.message, "unterminated quote in command");
}
