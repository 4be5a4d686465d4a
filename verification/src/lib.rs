//! Reader for the on-disk page format of a Firebird database file.
//!
//! The library decodes the database header, scans the file for data
//! pages, discovers tables and their column schemas through the
//! engine's own catalog relations, and decodes typed row values from
//! the run-length-compressed record encoding.  It works on plain byte
//! vectors; opening and reading the file itself is left to the caller.

mod column;
mod data;
mod database;
mod error;
mod page;
mod record;
mod row;
mod table;
mod text;
mod util;

pub use column::{Column, ColumnType};
pub use data::{DataPage, DataPageRecord};
pub use database::{lemma_table_discovery_idempotent, Database};
pub use error::Error;
pub use page::{HeaderPage, Page};
pub use record::{is_rle_encoding, lemma_rle_round_trip, rle_decode, rle_decoded, RecordHeader};
pub use row::{parse_char, parse_varchar, Row, Value};
pub use table::{Table, TablePreparated};
