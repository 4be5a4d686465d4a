//! Column definitions and the catalog type codes.

use vstd::prelude::*;
use vstd::string::StringExecFns;

use crate::error::Error;
use crate::util::{contains_chars, dec_chars, decimal_string};

verus! {

/// Column definition resolved from the catalog.
#[derive(Debug, PartialEq, Clone)]
pub struct Column {
    /// Column name.
    pub name: String,
    /// Declared position of the column within its table.
    pub position: usize,
    /// Name of the field definition this column draws its type from.
    pub source: String,
    /// Declared byte size.
    pub size: usize,
    /// Decimal scale.
    pub scale: i16,
    /// Resolved value type.
    pub tp: ColumnType,
    /// Whether the column rejects null values.
    pub not_null: bool,
    /// Whether the column is computed rather than stored.
    pub computed: bool,
}

/// The value types the catalog can declare for a column.
#[derive(Debug, Copy, Clone, PartialEq, Eq, Structural)]
pub enum ColumnType {
    Smallint,
    Integer,
    Float,
    Date,
    Time,
    Char,
    Bigint,
    DoublePrecision,
    Timestamp,
    Varchar,
    Blob,
}

/// Whether `code` is a catalog type code this reader knows.
pub open spec fn known_type_code(code: int) -> bool {
    ||| code == 7
    ||| code == 8
    ||| code == 10
    ||| code == 12
    ||| code == 13
    ||| code == 14
    ||| code == 16
    ||| code == 27
    ||| code == 35
    ||| code == 37
    ||| code == 261
}

/// The column type a known catalog type code declares.
pub open spec fn type_of_code(code: int) -> ColumnType
    recommends
        known_type_code(code),
{
    if code == 7 {
        ColumnType::Smallint
    } else if code == 8 {
        ColumnType::Integer
    } else if code == 10 {
        ColumnType::Float
    } else if code == 12 {
        ColumnType::Date
    } else if code == 13 {
        ColumnType::Time
    } else if code == 14 {
        ColumnType::Char
    } else if code == 16 {
        ColumnType::Bigint
    } else if code == 27 {
        ColumnType::DoublePrecision
    } else if code == 35 {
        ColumnType::Timestamp
    } else if code == 37 {
        ColumnType::Varchar
    } else {
        ColumnType::Blob
    }
}

impl ColumnType {
    /// Maps a catalog type code onto the type enumeration; a code
    /// outside the known set is an unresolved-type error whose message
    /// names the offending code.
    pub fn from_code(code: i16) -> (r: Result<ColumnType, Error>)
        ensures
            r is Ok <==> known_type_code(code as int),
            r matches Ok(t) ==> t == type_of_code(code as int),
            r matches Err(e) ==> (e matches Error::Other(msg) && contains_chars(
                msg@,
                dec_chars(code as int),
            )),
    {
        match code {
            7 => Ok(ColumnType::Smallint),
            8 => Ok(ColumnType::Integer),
            10 => Ok(ColumnType::Float),
            12 => Ok(ColumnType::Date),
            13 => Ok(ColumnType::Time),
            14 => Ok(ColumnType::Char),
            16 => Ok(ColumnType::Bigint),
            27 => Ok(ColumnType::DoublePrecision),
            35 => Ok(ColumnType::Timestamp),
            37 => Ok(ColumnType::Varchar),
            261 => Ok(ColumnType::Blob),
            _ => {
                let msg = "unknown column type code ".to_owned().concat(
                    decimal_string(code).as_str(),
                );
                proof {
                    let k = "unknown column type code "@.len() as int;
                    assert(msg@.subrange(k, k + dec_chars(code as int).len()) =~= dec_chars(
                        code as int,
                    ));
                    assert(contains_chars(msg@, dec_chars(code as int)));
                }
                Err(Error::Other(msg))
            },
        }
    }
}

} // verus!
