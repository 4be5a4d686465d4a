//! The generic page header and the database header page.

use vstd::prelude::*;

use crate::error::Error;
use crate::util::{le16, le32, read_u16_at, read_u32_at};

verus! {

/// The page-type tag of the database header page.
pub const HEADER_PAGE_TAG: u8 = 0x01;

/// The page-type tag of a data page.
pub const DATA_PAGE_TAG: u8 = 0x05;

/// Standard database page header.
///
/// Every page of a database file starts with this 16-byte header.
#[derive(Debug, Copy, Clone, PartialEq, Eq, Structural)]
pub struct Page {
    /// Page-type tag.
    pub ptype: u8,
    /// Page flags.
    pub flags: u8,
    /// Reserved for future use.
    pub reserved: u16,
    /// Page generation, incremented on every write.
    pub generation: u32,
    /// Scan or system change number.
    pub scn: u32,
    /// Page number within the file.
    pub pageno: u32,
}

/// The fields of the 16-byte page header laid out at offset `off` of `b`.
pub open spec fn page_at(b: Seq<u8>, off: int) -> Page {
    Page {
        ptype: b[off],
        flags: b[off + 1],
        reserved: le16(b[off + 2], b[off + 3]) as u16,
        generation: le32(b[off + 4], b[off + 5], b[off + 6], b[off + 7]) as u32,
        scn: le32(b[off + 8], b[off + 9], b[off + 10], b[off + 11]) as u32,
        pageno: le32(b[off + 12], b[off + 13], b[off + 14], b[off + 15]) as u32,
    }
}

impl Page {
    /// Reads the generic page header at offset `off`.
    pub fn parse(bytes: &Vec<u8>, off: usize) -> (r: Page)
        requires
            off + 16 <= bytes.len(),
        ensures
            r == page_at(bytes@, off as int),
    {
        Page {
            ptype: bytes[off],
            flags: bytes[off + 1],
            reserved: read_u16_at(bytes, off + 2),
            generation: read_u32_at(bytes, off + 4),
            scn: read_u32_at(bytes, off + 8),
            pageno: read_u32_at(bytes, off + 12),
        }
    }
}

/// Database header page.
///
/// The first page of a database file describes the database: the page
/// size of every following page and the on-disk-structure version.
/// The remaining engine metadata in the 1024-byte header block is not
/// used by this reader and is left undecoded.
#[derive(Debug, Copy, Clone, PartialEq, Eq, Structural)]
pub struct HeaderPage {
    /// Generic page header; its tag must be the header-page tag.
    pub pag: Page,
    /// Page size of the database.
    pub page_size: u16,
    /// Version of the on-disk structure.
    pub ods_version: u16,
}

/// The header fields laid out at the start of `b`.
pub open spec fn header_page_of(b: Seq<u8>) -> HeaderPage {
    HeaderPage {
        pag: page_at(b, 0),
        page_size: le16(b[16], b[17]) as u16,
        ods_version: le16(b[18], b[19]) as u16,
    }
}

impl HeaderPage {
    /// Decodes the database header from the first 1024 bytes of the
    /// file and validates its page-type tag: a block whose first byte
    /// is not the header-page tag is rejected, never accepted.
    pub fn from_bytes(bytes: &Vec<u8>) -> (r: Result<HeaderPage, Error>)
        requires
            bytes.len() >= 1024,
        ensures
            r is Ok <==> bytes@[0] == HEADER_PAGE_TAG,
            r matches Ok(h) ==> h == header_page_of(bytes@),
            r matches Err(e) ==> (e matches Error::InvalidPage { tpe, expected, .. }
                && tpe == bytes@[0] && expected == HEADER_PAGE_TAG),
    {
        let pag = Page::parse(bytes, 0);
        if pag.ptype != HEADER_PAGE_TAG {
            return Err(
                Error::InvalidPage {
                    tpe: pag.ptype,
                    expected: HEADER_PAGE_TAG,
                    desc: "header".to_string(),
                },
            );
        }
        Ok(
            HeaderPage {
                pag,
                page_size: read_u16_at(bytes, 16),
                ods_version: read_u16_at(bytes, 18),
            },
        )
    }
}

} // verus!
