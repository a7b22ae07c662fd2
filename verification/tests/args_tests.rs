use botcore::text::u64_to_string;
use botcore::utils::parse_args;

#[test]
fn splits_on_whitespace() {
    assert_eq!(parse_args("a b c"), vec!["a", "b", "c"]);
    assert_eq!(parse_args("  a\t b \n"), vec!["a", "b"]);
}

#[test]
fn empty_input_gives_no_args() {
    assert_eq!(parse_args(""), Vec::<String>::new());
    assert_eq!(parse_args("   "), Vec::<String>::new());
}

#[test]
fn double_quotes_group_words() {
    assert_eq!(parse_args("say \"hello world\" x"), vec!["say", "hello world", "x"]);
}

#[test]
fn quotes_vanish_from_output() {
    assert_eq!(parse_args("\"a\"b"), vec!["ab"]);
    assert_eq!(parse_args("\"\" a"), vec!["a"]);
}

#[test]
fn unclosed_quote_runs_to_the_end() {
    assert_eq!(parse_args("a \"b c"), vec!["a", "b c"]);
}

#[test]
fn backslash_escapes_the_next_character() {
    assert_eq!(parse_args("a\\ b"), vec!["a b"]);
    assert_eq!(parse_args("\\\"x\\\""), vec!["\"x\""]);
    assert_eq!(parse_args("a\\\\b"), vec!["a\\b"]);
}

#[test]
fn trailing_backslash_is_spent() {
    assert_eq!(parse_args("ab\\"), vec!["ab"]);
}

#[test]
fn unicode_whitespace_separates() {
    assert_eq!(parse_args("a\u{2003}b"), vec!["a", "b"]);
}

#[test]
fn decimal_rendering() {
    assert_eq!(u64_to_string(0), "0");
    assert_eq!(u64_to_string(7), "7");
    assert_eq!(u64_to_string(12345), "12345");
    assert_eq!(u64_to_string(u64::MAX), "18446744073709551615");
}
