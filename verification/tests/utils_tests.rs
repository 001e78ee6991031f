use loginhuset::utils::{rand_string, render, str_eq};

#[test]
fn render_substitutes_the_placeholder() {
    assert_eq!(render("Visit {{url}} now", "https://x/y"), "Visit https://x/y now");
}

#[test]
fn render_substitutes_every_occurrence() {
    assert_eq!(render("{{url}} and {{url}}", "L"), "L and L");
}

#[test]
fn render_without_placeholder_is_identity() {
    assert_eq!(render("plain text", "L"), "plain text");
    assert_eq!(render("", "L"), "");
}

#[test]
fn render_leaves_partial_placeholders_alone() {
    assert_eq!(render("{{url} {url}}", "L"), "{{url} {url}}");
}

#[test]
fn render_scans_left_to_right_without_overlap() {
    assert_eq!(render("{{{{url}}}}", "L"), "{{L}}");
}

#[test]
fn rand_string_is_32_alphanumeric_characters() {
    let s = rand_string();
    assert_eq!(s.len(), 32);
    assert!(s.chars().all(|c| c.is_ascii_alphanumeric()));
}

#[test]
fn rand_strings_differ() {
    // 62^32 values: two equal draws would point at a broken generator.
    assert_ne!(rand_string(), rand_string());
}

#[test]
fn str_eq_compares_contents() {
    assert!(str_eq("abc", "abc"));
    assert!(!str_eq("abc", "abd"));
    assert!(!str_eq("abc", "ab"));
    assert!(str_eq("", ""));
}
