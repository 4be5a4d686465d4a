//! Tests of the per-type cell parsers.

use rfirebird::{parse_char, parse_varchar, Error, Value};

#[test]
fn error_from_message() {
    let e = Error::from("something odd".to_string());
    assert!(matches!(e, Error::Other(msg) if msg == "something odd"));
}

#[test]
fn varchar_reads_logical_length() {
    // length 5, two prefix bytes, then the text and padding
    let bytes = vec![5, 0, b'H', b'e', b'l', b'l', b'o', 0, 0, 0];
    let v = parse_varchar(bytes).unwrap();
    assert_eq!(Some(Value::String("Hello".to_string())), v);
}

#[test]
fn varchar_rejects_length_past_buffer() {
    let bytes = vec![9, 0, b'H', b'i'];
    assert!(parse_varchar(bytes).is_err());
}

#[test]
fn varchar_rejects_empty_span() {
    assert!(parse_varchar(Vec::new()).is_err());
}

#[test]
fn varchar_rejects_invalid_utf8() {
    let bytes = vec![2, 0, 0xFF, 0xFE];
    assert!(parse_varchar(bytes).is_err());
}

#[test]
fn char_reads_fixed_size() {
    let bytes = vec![b'V', b'P', b' ', b' '];
    let v = parse_char(2, bytes).unwrap();
    assert_eq!(Some(Value::String("VP".to_string())), v);
}

#[test]
fn char_rejects_span_shorter_than_size() {
    let bytes = vec![b'V'];
    assert!(parse_char(3, bytes).is_err());
}

#[test]
fn char_rejects_invalid_utf8() {
    let bytes = vec![0xC0, 0x00];
    assert!(parse_char(2, bytes).is_err());
}
