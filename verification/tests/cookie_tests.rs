use loginhuset::cookies::{cookie_value, session_token_from_header};

#[test]
fn plain_cookie_pair() {
    assert_eq!(cookie_value("session=abc123", "session").unwrap(), "abc123");
}

#[test]
fn attributes_after_semicolon_are_ignored() {
    assert_eq!(
        cookie_value("session=abc; Path=/; Max-Age=31536000", "session").unwrap(),
        "abc"
    );
}

#[test]
fn whitespace_around_name_and_value_is_trimmed() {
    assert_eq!(cookie_value("  session = abc  ", "session").unwrap(), "abc");
}

#[test]
fn other_cookie_name_does_not_match() {
    assert!(cookie_value("other=abc", "session").is_none());
}

#[test]
fn only_the_first_pair_counts() {
    // The piece before the first `;` is the cookie pair; a later
    // `session=...` is an attribute of that pair, not a match.
    assert!(cookie_value("a=1; session=abc", "session").is_none());
}

#[test]
fn header_without_equals_names_no_cookie() {
    assert!(cookie_value("sessionabc", "session").is_none());
    assert!(cookie_value("", "session").is_none());
}

#[test]
fn empty_name_never_matches() {
    assert!(cookie_value("=abc", "").is_none());
}

#[test]
fn empty_value_is_allowed() {
    assert_eq!(cookie_value("session=", "session").unwrap(), "");
}

#[test]
fn absent_header_means_no_session() {
    assert!(session_token_from_header(None, "session").is_none());
    assert_eq!(
        session_token_from_header(Some("session=tok"), "session").unwrap(),
        "tok"
    );
}
