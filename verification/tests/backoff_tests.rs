use botcore::backoff::parse_retry_after_from_description;

#[test]
fn hint_plain() {
    assert_eq!(parse_retry_after_from_description("retry after 7"), Some(7));
}

#[test]
fn hint_upper_case() {
    assert_eq!(parse_retry_after_from_description("RETRY AFTER 7"), Some(7));
}

#[test]
fn hint_mixed_case_with_colon() {
    assert_eq!(parse_retry_after_from_description("Retry After: 7s"), Some(7));
}

#[test]
fn hint_punctuation_around_digits() {
    assert_eq!(parse_retry_after_from_description("please retry after (7)!"), Some(7));
}

#[test]
fn hint_embedded_in_remote_description() {
    assert_eq!(
        parse_retry_after_from_description("Too Many Requests: retry after 35"),
        Some(35)
    );
}

#[test]
fn hint_first_run_wins() {
    assert_eq!(parse_retry_after_from_description("retry after 12 or 99"), Some(12));
}

#[test]
fn hint_leading_zeroes() {
    assert_eq!(parse_retry_after_from_description("retry after 007"), Some(7));
}

#[test]
fn no_phrase_no_hint() {
    assert_eq!(parse_retry_after_from_description("internal error"), None);
    assert_eq!(parse_retry_after_from_description(""), None);
    assert_eq!(parse_retry_after_from_description("wait 7 seconds"), None);
}

#[test]
fn phrase_without_digits() {
    assert_eq!(parse_retry_after_from_description("retry after a while"), None);
}

#[test]
fn digits_before_phrase_are_ignored() {
    assert_eq!(parse_retry_after_from_description("code 420: retry after 9"), Some(9));
}

#[test]
fn oversized_run_is_passed_over() {
    assert_eq!(
        parse_retry_after_from_description("retry after 99999999999999999999999 or 8"),
        Some(8)
    );
}

#[test]
fn largest_fitting_value() {
    assert_eq!(
        parse_retry_after_from_description("retry after 18446744073709551615"),
        Some(u64::MAX)
    );
    assert_eq!(
        parse_retry_after_from_description("retry after 18446744073709551616, then 3"),
        Some(3)
    );
}

#[test]
fn phrase_case_folding_is_ascii_only() {
    assert_eq!(parse_retry_after_from_description("rEtRy AfTeR\u{a0}...17"), Some(17));
}
