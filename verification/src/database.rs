//! The database: header plus the shared collection of all data pages.

use std::rc::Rc;
use vstd::prelude::*;

use crate::data::{
    block_of, data_block_indices, is_data_page_of, num_blocks, scan_ok, DataPage,
};
use crate::error::Error;
use crate::page::{header_page_of, HeaderPage, HEADER_PAGE_TAG};
use crate::table::{catalog_ok, discovered_tables, tables_match, Table, RELATIONS_CATALOG};

verus! {

/// A database file opens without error: it holds the 1024-byte header
/// block, the header tag is right, the declared page size covers the
/// header block, and every data page parses.
pub open spec fn open_ok(b: Seq<u8>) -> bool {
    &&& b.len() >= 1024
    &&& b[0] == HEADER_PAGE_TAG
    &&& header_page_of(b).page_size >= 1024
    &&& scan_ok(b, header_page_of(b).page_size as int)
}

/// `db` is the database decoded from the file bytes `b`: its header is
/// the decoded header block and its pages are exactly the data pages
/// of the file, in file order.
pub open spec fn opened_from(db: Database, b: Seq<u8>) -> bool {
    let ps = header_page_of(b).page_size as int;
    let idx = data_block_indices(b, ps, num_blocks(b, ps));
    &&& db.header == header_page_of(b)
    &&& db.pages_view().len() == idx.len()
    &&& forall|j: int|
        0 <= j < idx.len() ==> is_data_page_of(#[trigger] db.pages_view()[j], block_of(b, ps, idx[j]))
            && db.pages_view()[j].wf()
}

/// The database: the decoded header and every data page of the file,
/// read once at open time and immutable afterwards.
pub struct Database {
    /// The decoded header page.
    pub header: HeaderPage,
    /// All data pages of the file, shared read-only with every table.
    pub pages: Rc<Vec<DataPage>>,
}

impl Database {
    /// The decoded data pages of the file.
    pub open spec fn pages_view(&self) -> Seq<DataPage> {
        self.pages@
    }

    /// Every held page is well formed.
    pub open spec fn wf(&self) -> bool {
        forall|i: int| 0 <= i < self.pages_view().len() ==> (#[trigger] self.pages_view()[i]).wf()
    }

    /// Opens a database from the full bytes of its file: decodes and
    /// validates the header block, then loads every data page into
    /// memory.  A file shorter than the header block, a wrong header
    /// tag, a page size smaller than the header block, or an
    /// undecodable data page is rejected.
    pub fn open(bytes: &Vec<u8>) -> (r: Result<Database, Error>)
        ensures
            r is Ok <==> open_ok(bytes@),
            r matches Ok(db) ==> opened_from(db, bytes@) && db.wf(),
            bytes@.len() < 1024 ==> (r matches Err(e) && e is Other),
            bytes@.len() >= 1024 && bytes@[0] != HEADER_PAGE_TAG ==> (r matches Err(e)
                && e is InvalidPage),
            bytes@.len() >= 1024 && bytes@[0] == HEADER_PAGE_TAG && header_page_of(
                bytes@,
            ).page_size < 1024 ==> (r matches Err(e) && e is Other),
    {
        if bytes.len() < 1024 {
            return Err(Error::Other("file shorter than the database header block".to_string()));
        }
        let header = match HeaderPage::from_bytes(bytes) {
            Ok(h) => h,
            Err(e) => {
                return Err(e);
            },
        };
        if header.page_size < 1024 {
            return Err(Error::Other("page size smaller than the header block".to_string()));
        }
        let pages = match DataPage::load(&header, bytes) {
            Ok(p) => p,
            Err(e) => {
                return Err(e);
            },
        };
        Ok(Database { header, pages: Rc::new(pages) })
    }

    /// Discovers the tables of the database from its catalog pages.
    pub fn tables(&self) -> (r: Result<Vec<Table>, Error>)
        requires
            self.wf(),
        ensures
            r is Ok <==> catalog_ok(self.pages_view(), RELATIONS_CATALOG),
            r matches Ok(ts) ==> tables_match(
                ts@,
                discovered_tables(self.pages_view(), self.pages_view().len() as int),
                self.pages_view(),
            ),
    {
        proof {
            assert forall|i: int| 0 <= i < self.pages@.len() implies (#[trigger] self.pages@[i]).wf() by {
                assert(self.pages_view()[i].wf());
            }
        }
        Table::load(&self.pages)
    }
}

/// Table discovery is idempotent: two databases opened from the same
/// file bytes discover identical table lists — the same count, the
/// same names and the same relation ids, in the same order.
pub proof fn lemma_table_discovery_idempotent(b: Seq<u8>, db1: Database, db2: Database)
    requires
        opened_from(db1, b),
        opened_from(db2, b),
    ensures
        discovered_tables(db1.pages_view(), db1.pages_view().len() as int) == discovered_tables(
            db2.pages_view(),
            db2.pages_view().len() as int,
        ),
{
    crate::table::lemma_discovery_congruent(
        db1.pages_view(),
        db2.pages_view(),
        db1.pages_view().len() as int,
    );
}

} // verus!
