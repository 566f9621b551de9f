use cms_core::errors::CmsError;
use cms_core::multipart::{decode_file_field, decode_text_field, parse_i32, Part};

fn text_part(name: &str, data: &[u8]) -> Part {
    Part { name: name.to_string(), filename: String::new(), data: data.to_vec() }
}

fn file_part(name: &str, filename: &str, data: &[u8]) -> Part {
    Part { name: name.to_string(), filename: filename.to_string(), data: data.to_vec() }
}

#[test]
fn text_field_decodes_utf8() {
    let parts = vec![text_part("title", "G\u{fc}nl\u{fc}k".as_bytes())];
    let s = decode_text_field(&parts, &"title".to_string()).unwrap();
    assert_eq!(s, "G\u{fc}nl\u{fc}k");
}

#[test]
fn missing_field_names_the_field() {
    let parts = vec![text_part("content", b"body")];
    let e = decode_text_field(&parts, &"title".to_string()).unwrap_err();
    assert_eq!(e, CmsError::MissingField("title".to_string()));
}

#[test]
fn invalid_utf8_is_an_encoding_error() {
    let parts = vec![text_part("title", &[0xff, 0xfe, 0x41])];
    let e = decode_text_field(&parts, &"title".to_string()).unwrap_err();
    assert_eq!(e, CmsError::InvalidEncoding);
}

#[test]
fn an_oversized_text_field_is_refused() {
    let huge = vec![b'a'; 10_485_761];
    let parts = vec![text_part("title", &huge)];
    let e = decode_text_field(&parts, &"title".to_string()).unwrap_err();
    assert_eq!(e, CmsError::PayloadTooLarge);
    // one byte under the bound decodes
    let parts = vec![text_part("title", &huge[..10_485_760])];
    assert!(decode_text_field(&parts, &"title".to_string()).is_ok());
}

#[test]
fn a_repeated_field_keeps_the_last_arrival() {
    let parts = vec![text_part("title", b"first"), text_part("title", b"second")];
    let s = decode_text_field(&parts, &"title".to_string()).unwrap();
    assert_eq!(s, "second");
}

#[test]
fn file_field_hands_back_bytes_and_client_name() {
    let parts = vec![file_part("image", "cat.png", &[1, 2, 3])];
    let (data, filename) = decode_file_field(&parts, &"image".to_string()).unwrap();
    assert_eq!(data, vec![1, 2, 3]);
    assert_eq!(filename, "cat.png");
}

#[test]
fn missing_file_field_names_the_field() {
    let parts: Vec<Part> = Vec::new();
    let e = decode_file_field(&parts, &"image".to_string()).unwrap_err();
    assert_eq!(e, CmsError::MissingField("image".to_string()));
}

#[test]
fn parse_accepts_plain_and_signed_numbers() {
    assert_eq!(parse_i32("123"), Some(123));
    assert_eq!(parse_i32("-45"), Some(-45));
    assert_eq!(parse_i32("+7"), Some(7));
    assert_eq!(parse_i32("0"), Some(0));
}

#[test]
fn parse_rejects_malformed_text() {
    assert_eq!(parse_i32(""), None);
    assert_eq!(parse_i32("-"), None);
    assert_eq!(parse_i32("+"), None);
    assert_eq!(parse_i32("12a"), None);
    assert_eq!(parse_i32("a12"), None);
    assert_eq!(parse_i32(" 12"), None);
    assert_eq!(parse_i32("1.5"), None);
}

#[test]
fn parse_honours_the_i32_range() {
    assert_eq!(parse_i32("2147483647"), Some(i32::MAX));
    assert_eq!(parse_i32("2147483648"), None);
    assert_eq!(parse_i32("-2147483648"), Some(i32::MIN));
    assert_eq!(parse_i32("-2147483649"), None);
    assert_eq!(parse_i32("99999999999999999999"), None);
}
