//! Error type of the reader.

use vstd::prelude::*;

verus! {

/// Everything that can go wrong while decoding a database file.
///
/// Structural violations (a wrong page tag, a record directory or a
/// record that exceeds its capacity) abort the enclosing operation;
/// they indicate a corrupted file or an unsupported format variant.
#[derive(Debug, Clone)]
pub enum Error {
    /// A declared size exceeds a fixed capacity: `value > limit`.
    Overflow { limit: usize, value: usize, msg: String },
    /// A page type tag differs from the expected one.
    InvalidPage { tpe: u8, expected: u8, desc: String },
    /// Any other decoding failure, described in the message.
    Other(String),
}

impl From<String> for Error {
    fn from(msg: String) -> (r: Self) {
        Error::Other(msg)
    }
}

impl vstd::std_specs::convert::FromSpecImpl<String> for Error {
    open spec fn obeys_from_spec() -> bool {
        true
    }

    open spec fn from_spec(msg: String) -> Error {
        Error::Other(msg)
    }
}

} // verus!
