//! Tests of the run-length record decompression.

use rfirebird::rle_decode;

#[test]
fn rle_decode_compressed() {
    let data = vec![
        0x01, 0xfe, 0xfd, 0x00, 0x03, 0x20, 0x00, 0x41, 0xfc, 0x61, 0x01, 0x42, 0xf7, 0x62, 0x01,
        0x43, 0xf2, 0x63, 0x02, 0x44, 0x44,
    ];

    // AaaaaBbbbbbbbbbCccccccccccccccDD
    let eresult = vec![
        0xfe, 0x00, 0x00, 0x00, 0x20, 0x00, 0x41, 0x61, 0x61, 0x61, 0x61, 0x42, 0x62, 0x62, 0x62,
        0x62, 0x62, 0x62, 0x62, 0x62, 0x62, 0x43, 0x63, 0x63, 0x63, 0x63, 0x63, 0x63, 0x63, 0x63,
        0x63, 0x63, 0x63, 0x63, 0x63, 0x63, 0x44, 0x44,
    ];

    let result = rle_decode(&data);
    assert_eq!(eresult, result);
}

#[test]
fn rle_decode_uncompressed() {
    let data = vec![
        0x01, 0xfe, 0xfd, 0x00, 0x0a, 0x08, 0x00, 0x46, 0x69, 0x72, 0x65, 0x62, 0x69, 0x72, 0x64,
        0x00,
    ];

    // Firebird
    let eresult = vec![
        0xfe, 0x00, 0x00, 0x00, 0x08, 0x00, 0x46, 0x69, 0x72, 0x65, 0x62, 0x69, 0x72, 0x64,
    ];

    let result = rle_decode(&data);
    assert_eq!(eresult, result);
}

#[test]
fn rle_decode_compressed_varchar_with_666() {
    let data = vec![0x01, 0xfe, 0xfd, 0x00, 0x02, 0x03, 0x00, 0xfd, 0x36];

    let eresult = vec![0xFE, 0x00, 0x00, 0x00, 0x03, 0x00, 0x36, 0x36, 0x36];

    let result = rle_decode(&data);
    assert_eq!(eresult, result);
}

#[test]
fn rle_decode_empty_input() {
    let data: Vec<u8> = vec![];
    assert_eq!(Vec::<u8>::new(), rle_decode(&data));
}

#[test]
fn rle_decode_stops_at_zero_control() {
    // everything after the 0 control byte is padding and is ignored
    let data = vec![0x02, 0xAA, 0xBB, 0x00, 0x7F, 0x11, 0x22];
    assert_eq!(vec![0xAA, 0xBB], rle_decode(&data));
}

#[test]
fn rle_decode_truncated_verbatim_run() {
    // the stream promises 5 verbatim bytes but ends after 2: decoding
    // stops at the end of input without error
    let data = vec![0x05, 0x41, 0x42];
    assert_eq!(vec![0x41, 0x42], rle_decode(&data));
}

#[test]
fn rle_decode_truncated_repeat_run() {
    // a repeat control byte with no following byte decodes to nothing
    let data = vec![0x01, 0x41, 0xFE];
    assert_eq!(vec![0x41], rle_decode(&data));
}

#[test]
fn rle_decode_longest_repeat_run() {
    // control -128 repeats the next byte 128 times
    let data = vec![0x80, 0x07];
    assert_eq!(vec![0x07u8; 128], rle_decode(&data));
}
