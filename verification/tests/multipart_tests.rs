use loginhuset::multipart::MultiPart;
use loginhuset::multipart::Part;

fn boundary_of_content_type(content_type: &str) -> String {
    let marker = "multipart/form-data; boundary=";
    assert!(content_type.starts_with(marker));
    content_type[marker.len()..].to_string()
}

#[test]
fn content_type_announces_boundary() {
    let mut mp = MultiPart::new();
    let ct = mp.to_content_type();
    let boundary = boundary_of_content_type(&ct);
    // 24 dashes, then the 16-character random id.
    assert_eq!(boundary.len(), 24 + 16);
    assert!(boundary.starts_with("------------------------"));
    let id = &boundary[24..];
    assert!(id.chars().all(|c| c.is_ascii_alphanumeric()));
}

#[test]
fn two_text_parts_round_trip() {
    let mut mp = MultiPart::new();
    mp.str_part("from", None, "a");
    mp.str_part("to", None, "b");
    let ct = mp.to_content_type();
    let boundary = boundary_of_content_type(&ct);
    let raw = mp.to_raw();
    let body = String::from_utf8(raw).unwrap();

    let expected = format!(
        "--{b}\r\nContent-Disposition: form-data; name=\"from\"\r\n\r\na\r\n--{b}\r\nContent-Disposition: form-data; name=\"to\"\r\n\r\nb\r\n--{b}--\r\n",
        b = boundary
    );
    assert_eq!(body, expected);

    // Parse the body back the way a standard multipart parser reads it:
    // delimiter, header block, blank line, data, repeated, then the
    // closing delimiter.
    let delimiter = format!("--{}", boundary);
    let closing = format!("--{}--\r\n", boundary);
    assert!(body.ends_with(&closing));
    let without_closing = &body[..body.len() - closing.len()];
    let mut sections: Vec<&str> = without_closing.split(delimiter.as_str()).collect();
    assert_eq!(sections.remove(0), "");
    let mut recovered = Vec::new();
    for section in sections {
        let section = section.strip_prefix("\r\n").unwrap();
        let (headers, data) = section.split_once("\r\n\r\n").unwrap();
        let name = headers
            .strip_prefix("Content-Disposition: form-data; name=\"")
            .unwrap()
            .strip_suffix("\"")
            .unwrap();
        recovered.push((name.to_string(), data.strip_suffix("\r\n").unwrap().to_string()));
    }
    assert_eq!(
        recovered,
        vec![("from".to_string(), "a".to_string()), ("to".to_string(), "b".to_string())]
    );
}

#[test]
fn content_type_tagged_part_has_header_and_blank_line() {
    let mut mp = MultiPart::new();
    mp.str_part("data", Some("text/plain".to_string()), "hello");
    let ct = mp.to_content_type();
    let boundary = boundary_of_content_type(&ct);
    let body = String::from_utf8(mp.to_raw()).unwrap();
    let expected = format!(
        "--{b}\r\nContent-Disposition: form-data; name=\"data\"\r\nContent-Type: text/plain\r\n\r\nhello\r\n--{b}--\r\n",
        b = boundary
    );
    assert_eq!(body, expected);
}

#[test]
fn a_part_can_be_built_on_its_own() {
    let _blob = Part::new("blob".to_string(), None, vec![0u8, 255u8, 10u8]);
    let _tagged = Part::new("page".to_string(), Some("text/html".to_string()), b"<p>".to_vec());
}

#[test]
fn raw_byte_part_is_kept_verbatim() {
    let mut mp = MultiPart::new();
    mp.part("blob", None, vec![0u8, 255u8, 10u8]);
    let ct = mp.to_content_type();
    let boundary = boundary_of_content_type(&ct);
    let raw = mp.to_raw();
    let mut expected: Vec<u8> = Vec::new();
    expected.extend_from_slice(
        format!("--{}\r\nContent-Disposition: form-data; name=\"blob\"\r\n\r\n", boundary)
            .as_bytes(),
    );
    expected.extend_from_slice(&[0u8, 255u8, 10u8]);
    expected.extend_from_slice(format!("\r\n--{}--\r\n", boundary).as_bytes());
    assert_eq!(raw, expected);
}

#[test]
fn empty_multipart_is_just_the_closing_delimiter() {
    let mut mp = MultiPart::new();
    let ct = mp.to_content_type();
    let boundary = boundary_of_content_type(&ct);
    let body = String::from_utf8(mp.to_raw()).unwrap();
    assert_eq!(body, format!("--{}--\r\n", boundary));
}

#[test]
fn boundaries_differ_between_encodings() {
    let mut a = MultiPart::new();
    let mut b = MultiPart::new();
    assert_ne!(a.to_content_type(), b.to_content_type());
}
