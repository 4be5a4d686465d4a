//! Data pages: the slot directory and record extraction.

use vstd::prelude::*;

use crate::error::Error;
use crate::page::{page_at, HeaderPage, Page, DATA_PAGE_TAG};
use crate::record::{is_record_of, record_size_ok, RecordHeader};
use crate::util::{copy_range, le16, le32, read_u16_at, read_u32_at};

verus! {

/// The most record slots one page may declare; records beyond this
/// fixed capacity are rejected as an overflow.
pub const MAX_PAGE_RECORDS: u16 = 512;

/// One entry of a data page's table of contents.
///
/// An entry with offset and length both zero is a hole (an unused
/// slot) and carries no record.
#[derive(Debug, Copy, Clone, PartialEq, Eq, Structural)]
pub struct DataPageRecord {
    /// Offset of the record fragment from the start of the page.
    pub offset: u16,
    /// Length of the record fragment in bytes.
    pub length: u16,
}

/// A data page: the standard header, the number of the owning
/// relation, and a table of contents pointing at the record fragments
/// stored on the same page.  The raw page bytes are retained for
/// on-demand record extraction.
#[derive(Debug, Clone)]
pub struct DataPage {
    /// Generic page header; its tag is the data-page tag.
    pub pag: Page,
    /// Position of this page in the list of pages of its table.
    pub sequence: u32,
    /// The relation id of the owning table.
    pub relation: u16,
    /// The declared number of table-of-contents entries.
    pub count: u16,
    /// The table of contents, truncated to `count` entries.
    pub records: Vec<DataPageRecord>,
    /// Raw content of this page.
    pub raw: Vec<u8>,
}

/// The declared slot count laid out in a data-page block.
pub open spec fn dp_count(b: Seq<u8>) -> int {
    le16(b[22], b[23])
}

/// The `i`-th table-of-contents entry laid out in a data-page block.
pub open spec fn dp_slot(b: Seq<u8>, i: int) -> DataPageRecord {
    DataPageRecord {
        offset: le16(b[24 + 4 * i], b[25 + 4 * i]) as u16,
        length: le16(b[26 + 4 * i], b[27 + 4 * i]) as u16,
    }
}

/// The whole table of contents laid out in a data-page block.
pub open spec fn dp_slots(b: Seq<u8>) -> Seq<DataPageRecord> {
    Seq::new(dp_count(b) as nat, |i: int| dp_slot(b, i))
}

/// A data-page block parses without error: the tag is right, the
/// declared slot count fits the capacity and the block, and every
/// slot's byte range lies within the block.
pub open spec fn dp_parse_ok(b: Seq<u8>) -> bool {
    &&& b[0] == DATA_PAGE_TAG
    &&& dp_count(b) <= MAX_PAGE_RECORDS
    &&& 24 + 4 * dp_count(b) <= b.len()
    &&& forall|i: int|
        0 <= i < dp_count(b) ==> (#[trigger] dp_slot(b, i)).offset + dp_slot(b, i).length
            <= b.len()
}

/// `p` holds exactly the fields of the data page laid out in `b`.
pub open spec fn is_data_page_of(p: DataPage, b: Seq<u8>) -> bool {
    &&& p.pag == page_at(b, 0)
    &&& p.sequence as int == le32(b[16], b[17], b[18], b[19])
    &&& p.relation as int == le16(b[20], b[21])
    &&& p.count as int == dp_count(b)
    &&& p.records@ == dp_slots(b)
    &&& p.raw@ == b
}

/// The bytes a table-of-contents entry spans within the page bytes.
pub open spec fn slot_range(raw: Seq<u8>, s: DataPageRecord) -> Seq<u8> {
    raw.subrange(s.offset as int, s.offset + s.length)
}

/// Every non-hole slot of the page spans a decodable record size.
pub open spec fn page_records_ok(p: DataPage) -> bool {
    forall|i: int|
        0 <= i < p.records@.len() && (#[trigger] p.records@[i]).length != 0 ==> record_size_ok(
            slot_range(p.raw@, p.records@[i]),
        )
}

/// The byte ranges of the first `n` slots that are not holes, in slot
/// order.
pub open spec fn nonhole_slots(slots: Seq<DataPageRecord>, raw: Seq<u8>, n: int) -> Seq<Seq<u8>>
    decreases n,
{
    if n <= 0 {
        Seq::empty()
    } else {
        nonhole_slots(slots, raw, n - 1) + if slots[n - 1].length != 0 {
            seq![slot_range(raw, slots[n - 1])]
        } else {
            Seq::empty()
        }
    }
}

/// The byte block of page `k` of the file; the header block is page 0.
pub open spec fn block_of(b: Seq<u8>, ps: int, k: int) -> Seq<u8> {
    b.subrange(k * ps, (k + 1) * ps)
}

/// How many whole pages of size `ps` the file holds.
pub open spec fn num_blocks(b: Seq<u8>, ps: int) -> int {
    b.len() as int / ps
}

/// The indices, in file order, of the blocks after the header whose
/// first byte carries the data-page tag, among the first `n` blocks.
pub open spec fn data_block_indices(b: Seq<u8>, ps: int, n: int) -> Seq<int>
    decreases n,
{
    if n <= 1 {
        Seq::empty()
    } else {
        data_block_indices(b, ps, n - 1) + if block_of(b, ps, n - 1)[0] == DATA_PAGE_TAG {
            seq![n - 1]
        } else {
            Seq::empty()
        }
    }
}

/// Every block after the header that carries the data-page tag parses
/// without error.
pub open spec fn scan_ok(b: Seq<u8>, ps: int) -> bool {
    forall|k: int|
        1 <= k < num_blocks(b, ps) && (#[trigger] block_of(b, ps, k))[0] == DATA_PAGE_TAG
            ==> dp_parse_ok(block_of(b, ps, k))
}

impl DataPage {
    /// The slot directory is well formed: every slot's byte range lies
    /// within the retained page bytes.
    pub open spec fn wf(&self) -> bool {
        forall|i: int|
            0 <= i < self.records@.len() ==> (#[trigger] self.records@[i]).offset
                + self.records@[i].length <= self.raw@.len()
    }

    /// Parses a data page from one page-sized block: the generic
    /// header, sequence, relation id, slot count and the table of
    /// contents.  Every declared size is checked before it is used to
    /// slice: a wrong tag, a slot count over the fixed capacity, a
    /// table of contents past the end of the block, or a slot pointing
    /// outside the block is rejected.  A bad slot is a structural
    /// violation and deliberately aborts the enclosing scan here, at
    /// parse time, rather than surfacing later at record access.
    pub fn from_bytes(bytes: Vec<u8>) -> (r: Result<DataPage, Error>)
        requires
            bytes.len() >= 24,
        ensures
            r is Ok <==> dp_parse_ok(bytes@),
            r matches Ok(p) ==> is_data_page_of(p, bytes@) && p.wf(),
            bytes@[0] != DATA_PAGE_TAG ==> (r matches Err(e) && e matches Error::InvalidPage {
                tpe,
                expected,
                ..
            } && tpe == bytes@[0] && expected == DATA_PAGE_TAG),
            bytes@[0] == DATA_PAGE_TAG && dp_count(bytes@) > MAX_PAGE_RECORDS ==> (r matches Err(e)
                && e matches Error::Overflow { limit, value, .. } && limit == MAX_PAGE_RECORDS
                && value == dp_count(bytes@)),
            bytes@[0] == DATA_PAGE_TAG && !dp_parse_ok(bytes@) ==> (r matches Err(e)
                && e is Overflow),
    {
        if bytes[0] != DATA_PAGE_TAG {
            return Err(
                Error::InvalidPage { tpe: bytes[0], expected: DATA_PAGE_TAG, desc: "data".to_string() },
            );
        }
        let count = read_u16_at(&bytes, 22);
        if count > MAX_PAGE_RECORDS {
            return Err(
                Error::Overflow {
                    limit: MAX_PAGE_RECORDS as usize,
                    value: count as usize,
                    msg: "supported records".to_string(),
                },
            );
        }
        if 24 + 4 * (count as usize) > bytes.len() {
            return Err(
                Error::Overflow {
                    limit: bytes.len(),
                    value: 24 + 4 * (count as usize),
                    msg: "record directory".to_string(),
                },
            );
        }
        let mut records: Vec<DataPageRecord> = Vec::new();
        let mut i: usize = 0;
        while i < count as usize
            invariant
                0 <= i <= count,
                bytes.len() >= 24 + 4 * (count as int),
                bytes@[0] == DATA_PAGE_TAG,
                count <= MAX_PAGE_RECORDS,
                count == dp_count(bytes@),
                records@.len() == i as int,
                forall|j: int| 0 <= j < i ==> records@[j] == dp_slot(bytes@, j),
                forall|j: int|
                    0 <= j < i ==> (#[trigger] dp_slot(bytes@, j)).offset + dp_slot(
                        bytes@,
                        j,
                    ).length <= bytes@.len(),
            decreases count - i,
        {
            let offset = read_u16_at(&bytes, 24 + 4 * i);
            let length = read_u16_at(&bytes, 26 + 4 * i);
            proof {
                assert(dp_slot(bytes@, i as int).offset == offset);
                assert(dp_slot(bytes@, i as int).length == length);
            }
            if offset as usize + length as usize > bytes.len() {
                return Err(
                    Error::Overflow {
                        limit: bytes.len(),
                        value: offset as usize + length as usize,
                        msg: "record slot bounds".to_string(),
                    },
                );
            }
            records.push(DataPageRecord { offset, length });
            i = i + 1;
        }
        proof {
            assert(records@ =~= dp_slots(bytes@));
        }
        let page = DataPage {
            pag: Page::parse(&bytes, 0),
            sequence: read_u32_at(&bytes, 16),
            relation: read_u16_at(&bytes, 20),
            count,
            records,
            raw: bytes,
        };
        Ok(page)
    }

    /// Scans the whole file for data pages.  The stream after the
    /// header block is a sequence of `page_size`-byte blocks, each
    /// classified by its first byte: a data-page tag triggers a full
    /// decode, any other tag is skipped whole (only data pages carry
    /// end-user records); a trailing fragment shorter than one page is
    /// ignored.
    pub fn load(header: &HeaderPage, bytes: &Vec<u8>) -> (r: Result<Vec<DataPage>, Error>)
        requires
            header.page_size >= 1024,
        ensures
            r is Ok <==> scan_ok(bytes@, header.page_size as int),
            r matches Ok(pages) ==> {
                let idx = data_block_indices(
                    bytes@,
                    header.page_size as int,
                    num_blocks(bytes@, header.page_size as int),
                );
                &&& pages@.len() == idx.len()
                &&& forall|j: int|
                    0 <= j < idx.len() ==> is_data_page_of(
                        #[trigger] pages@[j],
                        block_of(bytes@, header.page_size as int, idx[j]),
                    ) && pages@[j].wf()
            },
    {
        let ps = header.page_size as usize;
        let ghost psi = ps as int;
        let len = bytes.len();
        let ghost nb = num_blocks(bytes@, psi);
        let mut pages: Vec<DataPage> = Vec::new();
        let mut off: usize = ps;
        let ghost mut k: int = 1;
        loop
            invariant
                ps == header.page_size,
                ps >= 1024,
                psi == ps as int,
                len == bytes@.len(),
                nb == num_blocks(bytes@, psi),
                1 <= k,
                k == 1 || k <= nb,
                off == k * psi,
                pages@.len() == data_block_indices(bytes@, psi, k).len(),
                forall|j: int|
                    0 <= j < pages@.len() ==> is_data_page_of(
                        #[trigger] pages@[j],
                        block_of(bytes@, psi, data_block_indices(bytes@, psi, k)[j]),
                    ) && pages@[j].wf(),
                forall|t: int|
                    1 <= t < k && (#[trigger] block_of(bytes@, psi, t))[0] == DATA_PAGE_TAG
                        ==> dp_parse_ok(block_of(bytes@, psi, t)),
            ensures
                k >= nb,
                pages@.len() == data_block_indices(bytes@, psi, nb).len(),
                forall|j: int|
                    0 <= j < pages@.len() ==> is_data_page_of(
                        #[trigger] pages@[j],
                        block_of(bytes@, psi, data_block_indices(bytes@, psi, nb)[j]),
                    ) && pages@[j].wf(),
                scan_ok(bytes@, psi),
            decreases len + psi - off,
        {
            if !(off <= len && len - off >= ps) {
                proof {
                    assert(nb <= k) by (nonlinear_arith)
                        requires
                            psi > 0,
                            k >= 1,
                            off == k * psi,
                            len < off + psi || off > len,
                            nb == len as int / psi,
                    ;
                }
                break;
            }
            proof {
                assert(k < nb) by (nonlinear_arith)
                    requires
                        psi > 0,
                        k >= 1,
                        off == k * psi,
                        off + psi <= len,
                        nb == len as int / psi,
                ;
                assert((k + 1) * psi == k * psi + psi) by (nonlinear_arith);
            }
            let block = copy_range(bytes, off, off + ps);
            proof {
                assert(block@ =~= block_of(bytes@, psi, k));
            }
            if block[0] == DATA_PAGE_TAG {
                match DataPage::from_bytes(block) {
                    Ok(page) => {
                        pages.push(page);
                        proof {
                            assert(data_block_indices(bytes@, psi, k + 1) =~= data_block_indices(
                                bytes@,
                                psi,
                                k,
                            ) + seq![k]);
                        }
                    },
                    Err(e) => {
                        return Err(e);
                    },
                }
            } else {
                proof {
                    assert(data_block_indices(bytes@, psi, k + 1) =~= data_block_indices(
                        bytes@,
                        psi,
                        k,
                    ));
                }
            }
            off = off + ps;
            proof {
                k = k + 1;
            }
        }
        Ok(pages)
    }

    /// Extracts one record fragment through a table-of-contents entry.
    /// A hole (length zero) carries no record; a slot pointing outside
    /// the page or spanning an unsupported fragment size is rejected.
    pub fn get_record(&self, idx: DataPageRecord) -> (r: Result<Option<RecordHeader>, Error>)
        ensures
            idx.length == 0 ==> (r matches Ok(rec) && rec is None),
            idx.length != 0 && idx.offset + idx.length <= self.raw@.len() && record_size_ok(
                self.raw@.subrange(idx.offset as int, idx.offset + idx.length),
            ) ==> (r matches Ok(rec) && rec matches Some(h) && is_record_of(
                h,
                self.raw@.subrange(idx.offset as int, idx.offset + idx.length),
            )),
            idx.length != 0 && (idx.offset + idx.length > self.raw@.len() || !record_size_ok(
                self.raw@.subrange(idx.offset as int, idx.offset + idx.length),
            )) ==> r is Err,
    {
        if idx.length == 0 {
            return Ok(None);
        }
        if idx.offset as usize + (idx.length as usize) > self.raw.len() {
            return Err(
                Error::Overflow {
                    limit: self.raw.len(),
                    value: idx.offset as usize + idx.length as usize,
                    msg: "record slot bounds".to_string(),
                },
            );
        }
        let rpoip = copy_range(&self.raw, idx.offset as usize, idx.offset as usize + idx.length as usize);
        match RecordHeader::from_bytes(rpoip) {
            Ok(rec) => Ok(Some(rec)),
            Err(e) => Err(e),
        }
    }

    /// Extracts every record of this page in slot order, skipping
    /// holes.
    pub fn get_records(&self) -> (r: Result<Vec<RecordHeader>, Error>)
        requires
            self.wf(),
        ensures
            r is Ok <==> page_records_ok(*self),
            r matches Ok(v) ==> {
                let slots = nonhole_slots(self.records@, self.raw@, self.records@.len() as int);
                &&& v@.len() == slots.len()
                &&& forall|j: int| 0 <= j < v@.len() ==> is_record_of(#[trigger] v@[j], slots[j])
            },
    {
        let mut out: Vec<RecordHeader> = Vec::new();
        let mut i: usize = 0;
        while i < self.records.len()
            invariant
                0 <= i <= self.records@.len(),
                self.wf(),
                out@.len() == nonhole_slots(self.records@, self.raw@, i as int).len(),
                forall|j: int|
                    0 <= j < out@.len() ==> is_record_of(
                        #[trigger] out@[j],
                        nonhole_slots(self.records@, self.raw@, i as int)[j],
                    ),
                forall|j: int|
                    0 <= j < i && (#[trigger] self.records@[j]).length != 0 ==> record_size_ok(
                        slot_range(self.raw@, self.records@[j]),
                    ),
            decreases self.records@.len() - i,
        {
            let idx = self.records[i];
            if idx.length != 0 {
                match self.get_record(idx) {
                    Ok(Some(rec)) => {
                        out.push(rec);
                    },
                    Ok(None) => {
                        // unreachable: a non-hole slot never yields an
                        // absent record
                    },
                    Err(e) => {
                        proof {
                            assert(!record_size_ok(slot_range(self.raw@, self.records@[i as int])));
                        }
                        return Err(e);
                    },
                }
            }
            i = i + 1;
        }
        Ok(out)
    }
}

} // verus!
