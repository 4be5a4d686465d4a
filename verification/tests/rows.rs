//! Tests of row decoding driven by hand-built column lists.

use rfirebird::{Column, ColumnType, Error, Row, Value};

fn col(name: &str, tp: ColumnType, size: usize, scale: i16) -> Column {
    Column {
        name: name.to_string(),
        position: 0,
        source: name.to_string(),
        size,
        scale,
        tp,
        not_null: false,
        computed: false,
    }
}

#[test]
fn char_and_smallint_spans_advance_cursor() {
    // 4-byte prefix, a 3-byte char (odd size: one pad byte), then a
    // smallint
    let columns = vec![col("C", ColumnType::Char, 3, 0), col("N", ColumnType::Smallint, 2, 0)];
    let mut data = vec![0xFE, 0, 0, 0];
    data.extend_from_slice(b"AbC");
    data.push(0); // alignment pad for the odd char size
    data.extend_from_slice(&42i16.to_le_bytes());

    let row = Row::load(&columns, data).unwrap();
    assert_eq!(Some(Value::String("AbC".to_string())), row.values[0]);
    assert_eq!(Some(Value::SmallInt(42)), row.values[1]);
    assert_eq!(vec![b'A', b'b', b'C', 0], row.raw[0]);
}

#[test]
fn timestamp_with_zero_prefix_shifts_its_span() {
    // the four bytes at the cursor are zero: the timestamp span moves
    // two bytes forward, and gains two more bytes because neither
    // neighbour is a timestamp
    let columns = vec![col("TS", ColumnType::Timestamp, 8, 0), col("C", ColumnType::Char, 2, 0)];
    let mut data = vec![0xFE, 0, 0, 0];
    data.extend_from_slice(&[0, 0, 0, 0]); // zero prefix at the cursor
    data.extend_from_slice(&[1, 2, 3, 4, 5, 6, 7, 8]); // timestamp payload
    data.extend_from_slice(b"OK");

    let row = Row::load(&columns, data).unwrap();
    // timestamps are not decoded: the cell is absent, not an error
    assert_eq!(None, row.values[0]);
    // span is [6, 16): shifted by 2, length 8 + 2 of padding
    assert_eq!(vec![0, 0, 1, 2, 3, 4, 5, 6, 7, 8], row.raw[0]);
    assert_eq!(Some(Value::String("OK".to_string())), row.values[1]);
    assert_eq!(vec![b'O', b'K'], row.raw[1]);
}

#[test]
fn timestamp_without_zero_prefix_keeps_its_span() {
    let columns = vec![col("TS", ColumnType::Timestamp, 8, 0), col("C", ColumnType::Char, 2, 0)];
    let mut data = vec![0xFE, 0, 0, 0];
    data.extend_from_slice(&[9, 9, 9, 9, 1, 2, 3, 4, 5, 6]); // timestamp payload
    data.extend_from_slice(b"OK");

    let row = Row::load(&columns, data).unwrap();
    assert_eq!(None, row.values[0]);
    // span is [4, 14): unshifted, length 8 + 2 of padding
    assert_eq!(vec![9, 9, 9, 9, 1, 2, 3, 4, 5, 6], row.raw[0]);
    assert_eq!(Some(Value::String("OK".to_string())), row.values[1]);
}

#[test]
fn adjacent_timestamps_gain_no_padding() {
    // two timestamps in a row: neither gains the two padding bytes
    let columns = vec![
        col("T1", ColumnType::Timestamp, 8, 0),
        col("T2", ColumnType::Timestamp, 8, 0),
        col("C", ColumnType::Char, 2, 0),
    ];
    let mut data = vec![0xFE, 0, 0, 0];
    data.extend_from_slice(&[1u8; 8]);
    data.extend_from_slice(&[2u8; 8]);
    data.extend_from_slice(b"OK");

    let row = Row::load(&columns, data).unwrap();
    assert_eq!(vec![1u8; 8], row.raw[0]);
    assert_eq!(vec![2u8; 8], row.raw[1]);
    assert_eq!(Some(Value::String("OK".to_string())), row.values[2]);
}

#[test]
fn scaled_column_widens_its_span() {
    // a bigint of size 8 with scale -2 spans 10 bytes and yields an
    // absent value
    let columns = vec![col("B", ColumnType::Bigint, 8, -2), col("C", ColumnType::Char, 2, 0)];
    let mut data = vec![0xFE, 0, 0, 0];
    data.extend_from_slice(&[7u8; 10]);
    data.extend_from_slice(b"OK");

    let row = Row::load(&columns, data).unwrap();
    assert_eq!(None, row.values[0]);
    assert_eq!(vec![7u8; 10], row.raw[0]);
    assert_eq!(Some(Value::String("OK".to_string())), row.values[1]);
}

#[test]
fn computed_column_is_absent_and_consumes_nothing() {
    let mut computed = col("FULL", ColumnType::Varchar, 30, 0);
    computed.computed = true;
    let columns = vec![computed, col("N", ColumnType::Smallint, 2, 0)];
    let mut data = vec![0xFE, 0, 0, 0];
    data.extend_from_slice(&7i16.to_le_bytes());

    let row = Row::load(&columns, data).unwrap();
    assert_eq!(None, row.values[0]);
    assert_eq!(Some(Value::SmallInt(7)), row.values[1]);
    // the computed column contributes no raw span
    assert_eq!(1, row.raw.len());
}

#[test]
fn exact_trailing_span_decodes() {
    let columns = vec![col("C", ColumnType::Char, 2, 0)];
    let data = vec![0xFE, 0, 0, 0, b'X', b'Y'];
    let row = Row::load(&columns, data).unwrap();
    assert_eq!(Some(Value::String("XY".to_string())), row.values[0]);
}

#[test]
fn truncated_trailing_span_is_clamped() {
    // a bigint of size 8 in a record with only three bytes left: the
    // span is clamped to the decoded length and the cell stays absent
    let columns = vec![col("B", ColumnType::Bigint, 8, 0)];
    let data = vec![0xFE, 0, 0, 0, 1, 2, 3];
    let row = Row::load(&columns, data).unwrap();
    assert_eq!(None, row.values[0]);
    assert_eq!(vec![1, 2, 3], row.raw[0]);
}

#[test]
fn invalid_text_reports_the_offending_column() {
    let columns = vec![col("CURRENCY", ColumnType::Char, 2, 0)];
    let data = vec![0xFE, 0, 0, 0, 0xFF, 0xFF];
    match Row::load(&columns, data) {
        Err(Error::Other(msg)) => assert!(msg.contains("CURRENCY")),
        other => panic!("expected a decode error, got {:?}", other.map(|_| ())),
    }
}

#[test]
fn scaled_integer_is_not_decoded() {
    // an integer with a nonzero scale is out of decoding scope and
    // yields an absent value
    let columns = vec![col("I", ColumnType::Integer, 4, -2)];
    let mut data = vec![0xFE, 0, 0, 0];
    data.extend_from_slice(&[1, 2, 3, 4, 5, 6]);
    let row = Row::load(&columns, data).unwrap();
    assert_eq!(None, row.values[0]);
}
