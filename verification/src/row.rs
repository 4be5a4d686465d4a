//! Typed decoding of one row from its decompressed record bytes.

use vstd::prelude::*;
use vstd::string::StringExecFns;
use vstd::utf8::{decode_utf8, valid_utf8};

use crate::column::{Column, ColumnType};
use crate::error::Error;
use crate::text::string_from_utf8;
use crate::util::{
    contains_chars, copy_range, le16, le32, read_i16_at, read_i32_at, signed16, signed32,
};

verus! {

/// Cell value of a row.
#[derive(Debug, PartialEq, Clone)]
pub enum Value {
    /// A text value.
    String(String),
    /// A 32-bit integer value.
    Int(i32),
    /// A 16-bit integer value.
    SmallInt(i16),
}

/// The mathematical content of one decoded cell.
pub ghost enum ValueSpec {
    /// A text value, as its characters.
    Str(Seq<char>),
    /// A 32-bit integer value.
    Int(int),
    /// A 16-bit integer value.
    Small(int),
    /// A type this reader does not decode; the cell is absent rather
    /// than an error.
    Absent,
}

/// `v` is the executable form of the decoded cell `m`.
pub open spec fn value_matches(v: Option<Value>, m: ValueSpec) -> bool {
    match m {
        ValueSpec::Str(s) => v matches Some(x) && x matches Value::String(t) && t@ == s,
        ValueSpec::Int(n) => v matches Some(x) && x matches Value::Int(t) && t as int == n,
        ValueSpec::Small(n) => v matches Some(x) && x matches Value::SmallInt(t) && t as int == n,
        ValueSpec::Absent => v is None,
    }
}

/// The characters of a varying-length text span: a 1-byte logical
/// length, a 2-byte prefix to skip, then that many bytes of UTF-8.
/// An error is a span too short for its declared length, or invalid
/// UTF-8.
pub open spec fn varchar_chars(b: Seq<u8>) -> Result<Seq<char>, ()> {
    if b.len() < 1 {
        Err(())
    } else if b[0] + 2 > b.len() {
        Err(())
    } else if valid_utf8(b.subrange(2, b[0] + 2)) {
        Ok(decode_utf8(b.subrange(2, b[0] + 2)))
    } else {
        Err(())
    }
}

/// The characters of a fixed-length text span: its first `size` bytes
/// as UTF-8.  An error is a span shorter than `size`, or invalid
/// UTF-8.
pub open spec fn char_chars(size: int, b: Seq<u8>) -> Result<Seq<char>, ()> {
    if size > b.len() {
        Err(())
    } else if valid_utf8(b.take(size)) {
        Ok(decode_utf8(b.take(size)))
    } else {
        Err(())
    }
}

/// The signed 32-bit value of a span; an error if the span is shorter
/// than four bytes.
pub open spec fn integer_value(b: Seq<u8>) -> Result<int, ()> {
    if b.len() < 4 {
        Err(())
    } else {
        Ok(signed32(le32(b[0], b[1], b[2], b[3])))
    }
}

/// The signed 16-bit value of a span; an error if the span is shorter
/// than two bytes.
pub open spec fn smallint_value(b: Seq<u8>) -> Result<int, ()> {
    if b.len() < 2 {
        Err(())
    } else {
        Ok(signed16(le16(b[0], b[1])))
    }
}

/// Parses a varying-length text cell.
pub fn parse_varchar(bytes: Vec<u8>) -> (r: Result<Option<Value>, String>)
    ensures
        r is Ok <==> varchar_chars(bytes@) is Ok,
        r matches Ok(v) ==> (v matches Some(x) && x matches Value::String(s) && varchar_chars(
            bytes@,
        ) matches Ok(c) && s@ == c),
{
    if bytes.len() == 0 {
        return Err("varchar span is empty".to_owned());
    }
    let end = bytes[0] as usize + 2;
    if end > bytes.len() {
        return Err("varchar size exceeds the buffer size".to_owned());
    }
    let content = copy_range(&bytes, 2, end);
    match string_from_utf8(content) {
        Some(st) => Ok(Some(Value::String(st))),
        None => Err("found column with an invalid UTF-8 string".to_owned()),
    }
}

/// Parses a fixed-length text cell.
pub fn parse_char(size: usize, bytes: Vec<u8>) -> (r: Result<Option<Value>, String>)
    ensures
        r is Ok <==> char_chars(size as int, bytes@) is Ok,
        r matches Ok(v) ==> (v matches Some(x) && x matches Value::String(s) && char_chars(
            size as int,
            bytes@,
        ) matches Ok(c) && s@ == c),
{
    if size > bytes.len() {
        return Err("char span shorter than the column size".to_owned());
    }
    let content = copy_range(&bytes, 0, size);
    proof {
        assert(content@ =~= bytes@.take(size as int));
    }
    match string_from_utf8(content) {
        Some(st) => Ok(Some(Value::String(st))),
        None => Err("found column with an invalid UTF-8 string".to_owned()),
    }
}

/// Parses a signed 32-bit integer cell.
fn parse_integer(bytes: &Vec<u8>) -> (r: Result<Option<Value>, String>)
    ensures
        r is Ok <==> integer_value(bytes@) is Ok,
        r matches Ok(v) ==> (v matches Some(x) && x matches Value::Int(n) && integer_value(
            bytes@,
        ) matches Ok(c) && n as int == c),
{
    if bytes.len() < 4 {
        return Err("integer span shorter than four bytes".to_owned());
    }
    Ok(Some(Value::Int(read_i32_at(bytes, 0))))
}

/// Parses a signed 16-bit integer cell.
fn parse_smallinteger(bytes: &Vec<u8>) -> (r: Result<Option<Value>, String>)
    ensures
        r is Ok <==> smallint_value(bytes@) is Ok,
        r matches Ok(v) ==> (v matches Some(x) && x matches Value::SmallInt(n) && smallint_value(
            bytes@,
        ) matches Ok(c) && n as int == c),
{
    if bytes.len() < 2 {
        return Err("smallint span shorter than two bytes".to_owned());
    }
    Ok(Some(Value::SmallInt(read_i16_at(bytes, 0))))
}

/// The absolute value of a column's decimal scale.
pub open spec fn scale_abs(scale: i16) -> int {
    if scale < 0 {
        -(scale as int)
    } else {
        scale as int
    }
}

/// The byte length a column contributes before any timestamp
/// adjustment: its size plus its scale, two more bytes of length
/// prefix for a varying text column, and one alignment byte for a
/// text column of odd size.
pub open spec fn base_span_len(col: Column) -> int {
    col.size + scale_abs(col.scale) + (if col.tp == ColumnType::Varchar {
        2int
    } else {
        0int
    }) + (if (col.tp == ColumnType::Varchar || col.tp == ColumnType::Char) && col.size % 2 != 0 {
        1int
    } else {
        0int
    })
}

/// The empirical start shift of a timestamp span: when the four bytes
/// at the cursor exist and are all zero, the span moves two bytes
/// forward.
pub open spec fn ts_shift(col: Column, cursor: int, data: Seq<u8>) -> int {
    if col.tp == ColumnType::Timestamp && cursor + 4 <= data.len() && data[cursor] == 0 && data[
        cursor + 1
    ] == 0 && data[cursor + 2] == 0 && data[cursor + 3] == 0 {
        2
    } else {
        0
    }
}

/// The empirical end padding of a timestamp span: two more bytes when
/// neither the previous nor the next column is also a timestamp (a
/// missing previous column counts as a non-timestamp, a missing next
/// column as a timestamp).
pub open spec fn ts_pad(columns: Seq<Column>, i: int) -> int {
    if columns[i].tp == ColumnType::Timestamp && !(i > 0 && columns[i - 1].tp
        == ColumnType::Timestamp) && !(i + 1 >= columns.len() || columns[i + 1].tp
        == ColumnType::Timestamp) {
        2
    } else {
        0
    }
}

/// Where the span of column `i` starts, for a cursor at `cursor`.
pub open spec fn span_start(columns: Seq<Column>, i: int, cursor: int, data: Seq<u8>) -> int {
    cursor + ts_shift(columns[i], cursor, data)
}

/// Where the span of column `i` ends: the start plus the column's
/// length, clamped to the available decoded bytes to tolerate
/// truncated trailing records.
pub open spec fn span_end(columns: Seq<Column>, i: int, cursor: int, data: Seq<u8>) -> int {
    let raw_end = span_start(columns, i, cursor, data) + base_span_len(columns[i]) + ts_pad(
        columns,
        i,
    );
    if raw_end > data.len() {
        data.len() as int
    } else {
        raw_end
    }
}

/// The bytes of the span of column `i`.
pub open spec fn span_bytes(columns: Seq<Column>, i: int, cursor: int, data: Seq<u8>) -> Seq<u8> {
    data.subrange(span_start(columns, i, cursor, data), span_end(columns, i, cursor, data))
}

/// The cursor position before column `i` is decoded: it starts at the
/// four-byte record prefix (or at the end of a shorter record) and
/// advances past the span of every stored column; a computed column
/// does not advance it.
pub open spec fn row_cursor(columns: Seq<Column>, data: Seq<u8>, i: int) -> int
    decreases i,
{
    if i <= 0 {
        if data.len() < 4 {
            data.len() as int
        } else {
            4
        }
    } else if columns[i - 1].computed {
        row_cursor(columns, data, i - 1)
    } else {
        span_end(columns, i - 1, row_cursor(columns, data, i - 1), data)
    }
}

/// The decoded cell of column `i`: text, 32-bit and 16-bit integers
/// are decoded; every other type or scale combination yields an
/// absent value rather than an error.
pub open spec fn col_value(columns: Seq<Column>, i: int, data: Seq<u8>) -> Result<ValueSpec, ()> {
    let col = columns[i];
    let b = span_bytes(columns, i, row_cursor(columns, data, i), data);
    if col.computed {
        Ok(ValueSpec::Absent)
    } else if col.tp == ColumnType::Varchar {
        match varchar_chars(b) {
            Ok(s) => Ok(ValueSpec::Str(s)),
            Err(e) => Err(e),
        }
    } else if col.tp == ColumnType::Char {
        match char_chars(col.size as int, b) {
            Ok(s) => Ok(ValueSpec::Str(s)),
            Err(e) => Err(e),
        }
    } else if col.tp == ColumnType::Integer && col.scale == 0 {
        match integer_value(b) {
            Ok(n) => Ok(ValueSpec::Int(n)),
            Err(e) => Err(e),
        }
    } else if col.tp == ColumnType::Smallint {
        match smallint_value(b) {
            Ok(n) => Ok(ValueSpec::Small(n)),
            Err(e) => Err(e),
        }
    } else {
        Ok(ValueSpec::Absent)
    }
}

/// The first `n` columns all decode without error.
pub open spec fn row_ok_upto(columns: Seq<Column>, data: Seq<u8>, n: int) -> bool {
    forall|i: int| 0 <= i < n ==> (#[trigger] col_value(columns, i, data)) is Ok
}

/// The raw spans of the first `n` columns, in column order; computed
/// columns contribute none.
pub open spec fn row_raw(columns: Seq<Column>, data: Seq<u8>, n: int) -> Seq<Seq<u8>>
    decreases n,
{
    if n <= 0 {
        Seq::empty()
    } else {
        row_raw(columns, data, n - 1) + if columns[n - 1].computed {
            Seq::empty()
        } else {
            seq![span_bytes(columns, n - 1, row_cursor(columns, data, n - 1), data)]
        }
    }
}

/// `row` holds exactly the decoded cells and raw spans that `columns`
/// yield over the decoded record bytes `data`.
pub open spec fn row_matches(row: Row, columns: Seq<Column>, data: Seq<u8>) -> bool {
    &&& row.values@.len() == columns.len()
    &&& forall|i: int|
        0 <= i < columns.len() ==> value_matches(
            #[trigger] row.values@[i],
            col_value(columns, i, data)->Ok_0,
        )
    &&& row.raw@.len() == row_raw(columns, data, columns.len() as int).len()
    &&& forall|j: int|
        0 <= j < row.raw@.len() ==> (#[trigger] row.raw@[j])@ == row_raw(
            columns,
            data,
            columns.len() as int,
        )[j]
}

/// Table row: the raw byte span of every stored column and the
/// decoded cell of every column.
pub struct Row {
    /// The raw bytes each stored column's span covered.
    pub raw: Vec<Vec<u8>>,
    /// One decoded cell per column; an unsupported type is `None`.
    pub values: Vec<Option<Value>>,
}

impl Row {
    /// Decodes one row, driven by the resolved column list in
    /// discovery order.  Fails with the offending column's name when a
    /// text cell holds invalid UTF-8 or a span is shorter than its
    /// type's layout.
    pub fn load(columns: &Vec<Column>, rec_data: Vec<u8>) -> (r: Result<Row, Error>)
        ensures
            r is Ok <==> row_ok_upto(columns@, rec_data@, columns@.len() as int),
            r matches Ok(row) ==> row_matches(row, columns@, rec_data@),
            r matches Err(e) ==> (e matches Error::Other(msg) && exists|i: int|
                0 <= i < columns@.len() && (#[trigger] col_value(columns@, i, rec_data@)) is Err
                    && contains_chars(msg@, columns@[i].name@)),
    {
        let len = rec_data.len();
        let mut raw: Vec<Vec<u8>> = Vec::new();
        let mut values: Vec<Option<Value>> = Vec::new();
        let mut readed: usize = if len < 4 {
            len
        } else {
            4
        };
        let mut icol: usize = 0;
        while icol < columns.len()
            invariant
                0 <= icol <= columns@.len(),
                len == rec_data@.len(),
                readed == row_cursor(columns@, rec_data@, icol as int),
                readed <= len,
                values@.len() == icol,
                row_ok_upto(columns@, rec_data@, icol as int),
                forall|i: int|
                    0 <= i < icol ==> value_matches(
                        #[trigger] values@[i],
                        col_value(columns@, i, rec_data@)->Ok_0,
                    ),
                raw@.len() == row_raw(columns@, rec_data@, icol as int).len(),
                forall|j: int|
                    0 <= j < raw@.len() ==> (#[trigger] raw@[j])@ == row_raw(
                        columns@,
                        rec_data@,
                        icol as int,
                    )[j],
            decreases columns@.len() - icol,
        {
            let col = &columns[icol];
            if col.computed {
                values.push(None);
                proof {
                    assert(row_raw(columns@, rec_data@, icol + 1) =~= row_raw(
                        columns@,
                        rec_data@,
                        icol as int,
                    ));
                }
                icol = icol + 1;
                continue;
            }
            let mut start = readed;
            let sa: usize = if col.scale < 0 {
                (-(col.scale as i32)) as usize
            } else {
                col.scale as usize
            };
            let mut span: usize = col.size.saturating_add(sa);
            if matches!(col.tp, ColumnType::Varchar) {
                span = span.saturating_add(2);
            }
            if (matches!(col.tp, ColumnType::Varchar) || matches!(col.tp, ColumnType::Char))
                && col.size % 2 != 0 {
                span = span.saturating_add(1);
            }
            if matches!(col.tp, ColumnType::Timestamp) {
                if len >= 4 && start <= len - 4 && rec_data[start] == 0 && rec_data[start + 1] == 0
                    && rec_data[start + 2] == 0 && rec_data[start + 3] == 0 {
                    start = start + 2;
                }
                let prev_ts = icol > 0 && matches!(columns[icol - 1].tp, ColumnType::Timestamp);
                let next_ts = icol + 1 >= columns.len() || matches!(
                    columns[icol + 1].tp,
                    ColumnType::Timestamp,
                );
                if !prev_ts && !next_ts {
                    span = span.saturating_add(2);
                }
            }
            let end: usize = if span >= len - start {
                len
            } else {
                start + span
            };
            proof {
                assert(start == span_start(columns@, icol as int, readed as int, rec_data@));
                assert(end == span_end(columns@, icol as int, readed as int, rec_data@));
            }
            let bcol = copy_range(&rec_data, start, end);
            raw.push(copy_range(&rec_data, start, end));
            proof {
                assert(row_raw(columns@, rec_data@, icol + 1) =~= row_raw(
                    columns@,
                    rec_data@,
                    icol as int,
                ) + seq![span_bytes(columns@, icol as int, readed as int, rec_data@)]);
            }
            let parsed: Result<Option<Value>, String> = if matches!(col.tp, ColumnType::Varchar) {
                parse_varchar(bcol)
            } else if matches!(col.tp, ColumnType::Char) {
                parse_char(col.size, bcol)
            } else if matches!(col.tp, ColumnType::Integer) && col.scale == 0 {
                parse_integer(&bcol)
            } else if matches!(col.tp, ColumnType::Smallint) {
                parse_smallinteger(&bcol)
            } else {
                Ok(None)
            };
            match parsed {
                Ok(v) => {
                    values.push(v);
                },
                Err(e) => {
                    proof {
                        assert(col_value(columns@, icol as int, rec_data@) is Err);
                    }
                    let msg = "Parsing column ".to_owned().concat(col.name.as_str()).concat(
                        ": ",
                    ).concat(e.as_str());
                    proof {
                        let k = "Parsing column "@.len() as int;
                        assert(msg@.subrange(k, k + columns@[icol as int].name@.len())
                            =~= columns@[icol as int].name@);
                        assert(contains_chars(msg@, columns@[icol as int].name@));
                    }
                    return Err(Error::Other(msg));
                },
            }
            readed = end;
            icol = icol + 1;
        }
        Ok(Row { values, raw })
    }
}

} // verus!
