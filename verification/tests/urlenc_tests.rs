use loginhuset::urlenc::{decode_login_email, get_query_map, parse_form, query_param, DecodeError};

fn pairs_of(body: &[u8]) -> Vec<(Vec<u8>, Vec<u8>)> {
    parse_form(body)
}

#[test]
fn simple_pairs() {
    let pairs = pairs_of(b"a=1&b=2");
    assert_eq!(
        pairs,
        vec![(b"a".to_vec(), b"1".to_vec()), (b"b".to_vec(), b"2".to_vec())]
    );
}

#[test]
fn plus_and_percent_decode() {
    let pairs = pairs_of(b"a+b=c%20d");
    assert_eq!(pairs, vec![(b"a b".to_vec(), b"c d".to_vec())]);
}

#[test]
fn broken_percent_escapes_stay_literal() {
    let pairs = pairs_of(b"k=%zz%4");
    assert_eq!(pairs, vec![(b"k".to_vec(), b"%zz%4".to_vec())]);
}

#[test]
fn hex_case_is_accepted() {
    let pairs = pairs_of(b"k=%2F%2f");
    assert_eq!(pairs, vec![(b"k".to_vec(), b"//".to_vec())]);
}

#[test]
fn empty_segments_are_dropped() {
    let pairs = pairs_of(b"&&a=1&");
    assert_eq!(pairs, vec![(b"a".to_vec(), b"1".to_vec())]);
    assert!(pairs_of(b"").is_empty());
    assert!(pairs_of(b"&").is_empty());
}

#[test]
fn segment_without_equals_has_empty_value() {
    let pairs = pairs_of(b"flag");
    assert_eq!(pairs, vec![(b"flag".to_vec(), b"".to_vec())]);
}

#[test]
fn decode_login_email_accepts_an_encoded_address() {
    let got = decode_login_email(b"email=foo%40bar.com");
    assert_eq!(got.unwrap(), "foo@bar.com");
}

#[test]
fn decode_login_email_decodes_the_key_too() {
    let got = decode_login_email(b"em%61il=x%40y");
    assert_eq!(got.unwrap(), "x@y");
}

#[test]
fn decode_login_email_missing_field() {
    assert!(matches!(decode_login_email(b"foo=bar"), Err(DecodeError::MissingEmail)));
    assert!(matches!(decode_login_email(b""), Err(DecodeError::MissingEmail)));
}

#[test]
fn decode_login_email_duplicate_field() {
    assert!(matches!(
        decode_login_email(b"email=a&email=b"),
        Err(DecodeError::DuplicateEmail)
    ));
}

#[test]
fn decode_login_email_rejects_bytes_that_are_not_text() {
    assert!(matches!(decode_login_email(b"email=%FF"), Err(DecodeError::InvalidText)));
}

#[test]
fn decode_login_email_ignores_other_fields() {
    let got = decode_login_email(b"next=%2Fhome&email=a%40b&flag");
    assert_eq!(got.unwrap(), "a@b");
}

#[test]
fn query_map_decodes_and_last_binding_wins() {
    let pairs = get_query_map("token=abc&origin=%2Fnext");
    assert_eq!(query_param(&pairs, "token").unwrap(), "abc");
    assert_eq!(query_param(&pairs, "origin").unwrap(), "/next");
    assert!(query_param(&pairs, "missing").is_none());

    let dup = get_query_map("a=1&a=2");
    assert_eq!(query_param(&dup, "a").unwrap(), "2");
}
