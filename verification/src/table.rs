//! Tables: catalog-driven discovery, schema resolution and the row
//! cursor.

use std::rc::Rc;
use vstd::prelude::*;

use crate::column::{known_type_code, type_of_code, Column, ColumnType};
use crate::data::{nonhole_slots, page_records_ok, slot_range, DataPage};
use crate::error::Error;
use crate::record::{is_record_of, record_size_ok, rle_decoded};
use crate::row::{row_matches, row_ok_upto, Row};
use crate::text::{lossy_decoded, string_from_utf8_lossy};
use crate::util::{bytes_eq, contains_byte, le16, read_i16_at, signed16, trim_range, trimmed};

verus! {

/// Relation id of the engine's table catalog.
pub const RELATIONS_CATALOG: u16 = 6;

/// Relation id of the engine's relation-field catalog.
pub const RELATION_FIELDS_CATALOG: u16 = 5;

/// Relation id of the engine's field-definition catalog.
pub const FIELDS_CATALOG: u16 = 2;

/// The decompressed payload of a record stored in the slot bytes `sb`:
/// everything after the 13-byte fragment prefix, decompressed.
pub open spec fn rec_payload(sb: Seq<u8>) -> Seq<u8> {
    rle_decoded(sb.skip(13))
}

/// What one catalog record of the relations catalog yields.
pub ghost struct TableInfo {
    /// The trimmed bytes of the relation name.
    pub name: Seq<u8>,
    /// The numeric relation id.
    pub relation: u16,
}

/// The table a relations-catalog payload describes: the relation name
/// from the decoded bytes at 42..72 (trimmed) and the relation id from
/// the byte at 32.
pub open spec fn table_of_payload(d: Seq<u8>) -> TableInfo {
    TableInfo { name: trimmed(d.subrange(42, 72)), relation: d[32] as u16 }
}

/// The tables described by a sequence of record slot ranges: one per
/// record whose decoded payload holds at least 72 bytes (shorter
/// records are not catalog rows), in slot order.
pub open spec fn tables_from_slots(slots: Seq<Seq<u8>>) -> Seq<TableInfo>
    decreases slots.len(),
{
    if slots.len() == 0 {
        Seq::empty()
    } else {
        tables_from_slots(slots.drop_last()) + if rec_payload(slots.last()).len() >= 72 {
            seq![table_of_payload(rec_payload(slots.last()))]
        } else {
            Seq::empty()
        }
    }
}

/// The byte ranges of every non-hole record slot of a page, in slot
/// order.
pub open spec fn page_slot_ranges(p: DataPage) -> Seq<Seq<u8>> {
    nonhole_slots(p.records@, p.raw@, p.records@.len() as int)
}

/// The tables described by one page of the relations catalog.
pub open spec fn page_table_infos(p: DataPage) -> Seq<TableInfo> {
    tables_from_slots(page_slot_ranges(p))
}

/// The tables discovered across the first `n` pages, in page order:
/// every page of the relations catalog contributes its records.
pub open spec fn discovered_tables(pages: Seq<DataPage>, n: int) -> Seq<TableInfo>
    decreases n,
{
    if n <= 0 {
        Seq::empty()
    } else {
        discovered_tables(pages, n - 1) + if pages[n - 1].relation == RELATIONS_CATALOG {
            page_table_infos(pages[n - 1])
        } else {
            Seq::empty()
        }
    }
}

/// Every record of every page belonging to catalog relation `rel` is
/// decodable.
pub open spec fn catalog_ok(pages: Seq<DataPage>, rel: u16) -> bool {
    forall|i: int|
        0 <= i < pages.len() && (#[trigger] pages[i]).relation == rel ==> page_records_ok(
            pages[i],
        )
}

/// `ts` lists exactly the tables of `infos`, discovered over `pages`.
pub open spec fn tables_match(ts: Seq<Table>, infos: Seq<TableInfo>, pages: Seq<DataPage>) -> bool {
    &&& ts.len() == infos.len()
    &&& forall|i: int|
        0 <= i < ts.len() ==> {
            let t = #[trigger] ts[i];
            &&& t.name_bytes() == infos[i].name
            &&& t.name@ == lossy_decoded(infos[i].name)
            &&& t.relation == infos[i].relation
            &&& t.is_system_table == infos[i].name.contains(0x24u8)
            &&& t.pages_view() == pages
            &&& t.wf()
        }
}

/// Type metadata one field-catalog record yields.
pub ghost struct FieldMeta {
    /// Whether the field is computed rather than stored.
    pub computed: bool,
    /// The declared byte size.
    pub size: u8,
    /// The decimal scale.
    pub scale: int,
    /// The catalog type code.
    pub code: int,
}

/// A field-catalog payload that defines the field named `source`: it
/// spans every referenced byte and its field name at 4..35 (trimmed)
/// matches exactly.
pub open spec fn field_rec_matches(d: Seq<u8>, source: Seq<u8>) -> bool {
    d.len() >= 126 && trimmed(d.subrange(4, 35)) == source
}

/// The metadata a field-catalog payload declares: the computed flag at
/// byte 88, the byte size at 120, the scale at 122..124 and the type
/// code at 124..126, both little-endian signed.
pub open spec fn field_meta_of(d: Seq<u8>) -> FieldMeta {
    FieldMeta {
        computed: d[88] > 0,
        size: d[120],
        scale: signed16(le16(d[122], d[123])),
        code: signed16(le16(d[124], d[125])),
    }
}

/// The metadata of the last record among the slot ranges that defines
/// `source`; a later definition overrides an earlier one.
pub open spec fn field_meta_from_slots(slots: Seq<Seq<u8>>, source: Seq<u8>) -> Option<FieldMeta>
    decreases slots.len(),
{
    if slots.len() == 0 {
        None
    } else if field_rec_matches(rec_payload(slots.last()), source) {
        Some(field_meta_of(rec_payload(slots.last())))
    } else {
        field_meta_from_slots(slots.drop_last(), source)
    }
}

/// The second operand if it holds a value, else the first.
pub open spec fn meta_or(a: Option<FieldMeta>, b: Option<FieldMeta>) -> Option<FieldMeta> {
    if b is Some {
        b
    } else {
        a
    }
}

/// The metadata of the last record across the first `n` pages of the
/// field catalog that defines `source`.
pub open spec fn field_meta_from_pages(pages: Seq<DataPage>, n: int, source: Seq<u8>) -> Option<
    FieldMeta,
>
    decreases n,
{
    if n <= 0 {
        None
    } else {
        meta_or(
            field_meta_from_pages(pages, n - 1, source),
            if pages[n - 1].relation == FIELDS_CATALOG {
                field_meta_from_slots(page_slot_ranges(pages[n - 1]), source)
            } else {
                None
            },
        )
    }
}

/// Every field-catalog record of this page that defines `source`
/// declares a known type code.
pub open spec fn field_codes_ok_page(p: DataPage, source: Seq<u8>) -> bool {
    forall|j: int|
        0 <= j < page_slot_ranges(p).len() && field_rec_matches(
            rec_payload(#[trigger] page_slot_ranges(p)[j]),
            source,
        ) ==> known_type_code(field_meta_of(rec_payload(page_slot_ranges(p)[j])).code)
}

/// Every field-catalog record of any page that defines `source`
/// declares a known type code.
pub open spec fn field_codes_ok(pages: Seq<DataPage>, source: Seq<u8>) -> bool {
    forall|i: int|
        0 <= i < pages.len() && (#[trigger] pages[i]).relation == FIELDS_CATALOG
            ==> field_codes_ok_page(pages[i], source)
}

/// What one catalog record of the relation-field catalog yields.
pub ghost struct ColumnInfo {
    /// The trimmed bytes of the column name.
    pub name: Seq<u8>,
    /// The trimmed bytes of the source-field name.
    pub source: Seq<u8>,
    /// The declared position, one byte.
    pub position: u8,
    /// The not-null flag.
    pub not_null: bool,
    /// The type metadata resolved through the field catalog, if any
    /// record defines the source field.
    pub meta: Option<FieldMeta>,
}

/// A relation-field payload that declares a column of the table named
/// `tname`: it spans every referenced byte (up to the not-null flag at
/// byte 392) and its owning-relation name at 35..66 (trimmed) matches
/// exactly.
pub open spec fn column_rec_matches(d: Seq<u8>, tname: Seq<u8>) -> bool {
    d.len() >= 393 && trimmed(d.subrange(35, 66)) == tname
}

/// The column a relation-field payload declares: the field name at
/// 4..35, the source-field name at 65..96 (both trimmed), the not-null
/// flag at byte 392 (nonzero versus zero), the position at byte 290,
/// and the type metadata of its source field.
pub open spec fn column_info_of(d: Seq<u8>, pages: Seq<DataPage>) -> ColumnInfo {
    let source = trimmed(d.subrange(65, 96));
    ColumnInfo {
        name: trimmed(d.subrange(4, 35)),
        source,
        position: d[290],
        not_null: d[392] != 0,
        meta: field_meta_from_pages(pages, pages.len() as int, source),
    }
}

/// The columns declared for `tname` by a sequence of record slot
/// ranges, in slot order.
pub open spec fn columns_from_slots(
    slots: Seq<Seq<u8>>,
    tname: Seq<u8>,
    pages: Seq<DataPage>,
) -> Seq<ColumnInfo>
    decreases slots.len(),
{
    if slots.len() == 0 {
        Seq::empty()
    } else {
        columns_from_slots(slots.drop_last(), tname, pages) + if column_rec_matches(
            rec_payload(slots.last()),
            tname,
        ) {
            seq![column_info_of(rec_payload(slots.last()), pages)]
        } else {
            Seq::empty()
        }
    }
}

/// The columns of the table named `tname`, resolved across the first
/// `n` pages: every page of the relation-field catalog contributes its
/// matching records, in page order.
pub open spec fn resolved_columns(pages: Seq<DataPage>, n: int, tname: Seq<u8>) -> Seq<ColumnInfo>
    decreases n,
{
    if n <= 0 {
        Seq::empty()
    } else {
        resolved_columns(pages, n - 1, tname) + if pages[n - 1].relation
            == RELATION_FIELDS_CATALOG {
            columns_from_slots(page_slot_ranges(pages[n - 1]), tname, pages)
        } else {
            Seq::empty()
        }
    }
}

/// `c` is the executable column of `info`: the names decode the
/// trimmed catalog bytes, and the type metadata is the resolved one,
/// or the defaults (size 0, scale 0, smallint, stored) when no field
/// record defines the source.
pub open spec fn column_matches(c: Column, info: ColumnInfo) -> bool {
    &&& c.name@ == lossy_decoded(info.name)
    &&& c.source@ == lossy_decoded(info.source)
    &&& c.position == info.position as usize
    &&& c.not_null == info.not_null
    &&& match info.meta {
        Some(m) => {
            &&& c.size == m.size as usize
            &&& c.scale as int == m.scale
            &&& c.computed == m.computed
            &&& known_type_code(m.code)
            &&& c.tp == type_of_code(m.code)
        },
        None => {
            &&& c.size == 0
            &&& c.scale == 0
            &&& c.tp == ColumnType::Smallint
            &&& !c.computed
        },
    }
}

/// Schema resolution succeeds: the relation-field catalog decodes, the
/// field catalog decodes whenever a column actually consults it, and
/// every consulted field record declares a known type code.
pub open spec fn schema_ok(pages: Seq<DataPage>, tname: Seq<u8>) -> bool {
    let infos = resolved_columns(pages, pages.len() as int, tname);
    &&& catalog_ok(pages, RELATION_FIELDS_CATALOG)
    &&& infos.len() > 0 ==> catalog_ok(pages, FIELDS_CATALOG)
    &&& forall|c: int|
        0 <= c < infos.len() ==> field_codes_ok(pages, (#[trigger] infos[c]).source)
}

/// A take of the slot ranges declares a prefix of the columns the
/// whole sequence declares.
proof fn lemma_columns_take_prefix(
    slots: Seq<Seq<u8>>,
    tname: Seq<u8>,
    pages: Seq<DataPage>,
    j: int,
)
    requires
        0 <= j <= slots.len(),
    ensures
        columns_from_slots(slots.take(j), tname, pages).is_prefix_of(
            columns_from_slots(slots, tname, pages),
        ),
    decreases slots.len(),
{
    if j == slots.len() {
        assert(slots.take(j) =~= slots);
        assert(columns_from_slots(slots, tname, pages).is_prefix_of(
            columns_from_slots(slots, tname, pages),
        ));
    } else {
        assert(slots.take(j) =~= slots.drop_last().take(j));
        lemma_columns_take_prefix(slots.drop_last(), tname, pages, j);
    }
}

/// The columns resolved over a prefix of the pages are a prefix of the
/// columns resolved over more pages.
proof fn lemma_resolved_columns_prefix(pages: Seq<DataPage>, n1: int, n2: int, tname: Seq<u8>)
    requires
        0 <= n1 <= n2,
    ensures
        resolved_columns(pages, n1, tname).is_prefix_of(resolved_columns(pages, n2, tname)),
    decreases n2 - n1,
{
    if n1 == n2 {
        assert(resolved_columns(pages, n1, tname).is_prefix_of(
            resolved_columns(pages, n2, tname),
        ));
    } else {
        lemma_resolved_columns_prefix(pages, n1, n2 - 1, tname);
    }
}

/// Discovery reads only each page's relation id, slot directory and
/// raw bytes: page collections that agree on those discover the same
/// tables.
pub proof fn lemma_discovery_congruent(pages1: Seq<DataPage>, pages2: Seq<DataPage>, n: int)
    requires
        pages1.len() == pages2.len(),
        0 <= n <= pages1.len(),
        forall|i: int|
            0 <= i < pages1.len() ==> (#[trigger] pages1[i]).relation == pages2[i].relation
                && pages1[i].records@ == pages2[i].records@ && pages1[i].raw@ == pages2[i].raw@,
    ensures
        discovered_tables(pages1, n) == discovered_tables(pages2, n),
    decreases n,
{
    if n > 0 {
        lemma_discovery_congruent(pages1, pages2, n - 1);
        assert(page_table_infos(pages1[n - 1]) == page_table_infos(pages2[n - 1]));
    }
}

/// Relies on std's `Rc::clone`: the clone shares the same value.
#[verifier::external_body]
fn share_pages(pages: &Rc<Vec<DataPage>>) -> (r: Rc<Vec<DataPage>>)
    ensures
        r == *pages,
{
    Rc::clone(pages)
}

/// Basic reference of a table, discovered from the relations catalog.
#[derive(Debug)]
pub struct Table {
    /// The table name, decoded from its trimmed catalog bytes.
    pub name: String,
    /// Whether the engine owns this table: its name holds a `$`.
    pub is_system_table: bool,
    /// The numeric relation id that selects this table's data pages.
    pub relation: u16,
    /// The shared, read-only collection of all data pages of the file.
    pub pages: Rc<Vec<DataPage>>,
    /// The trimmed catalog bytes of the name.
    pub name_raw: Vec<u8>,
}

impl Table {
    /// The shared page collection this table was discovered in.
    pub open spec fn pages_view(&self) -> Seq<DataPage> {
        self.pages@
    }

    /// The trimmed catalog bytes of the table's name.
    pub open spec fn name_bytes(&self) -> Seq<u8> {
        self.name_raw@
    }

    /// Every shared page is well formed and the name decodes its
    /// catalog bytes.
    pub open spec fn wf(&self) -> bool {
        &&& forall|i: int|
            0 <= i < self.pages_view().len() ==> (#[trigger] self.pages_view()[i]).wf()
        &&& self.name@ == lossy_decoded(self.name_bytes())
    }

    /// Discovers every table of the database: scans the pages of the
    /// relations catalog and decodes one table per catalog record that
    /// holds at least 72 payload bytes.  A record contributes its
    /// relation name (trimmed), its relation id, and the system
    /// classification (a `$` in the trimmed name).
    pub fn load(pages: &Rc<Vec<DataPage>>) -> (r: Result<Vec<Table>, Error>)
        requires
            forall|i: int| 0 <= i < pages@.len() ==> (#[trigger] pages@[i]).wf(),
        ensures
            r is Ok <==> catalog_ok(pages@, RELATIONS_CATALOG),
            r matches Ok(ts) ==> tables_match(
                ts@,
                discovered_tables(pages@, pages@.len() as int),
                pages@,
            ),
    {
        let npages = pages.len();
        let mut tables: Vec<Table> = Vec::new();
        let mut i: usize = 0;
        while i < npages
            invariant
                0 <= i <= npages,
                npages == pages@.len(),
                forall|t: int| 0 <= t < pages@.len() ==> (#[trigger] pages@[t]).wf(),
                tables_match(tables@, discovered_tables(pages@, i as int), pages@),
                forall|t: int|
                    0 <= t < i && (#[trigger] pages@[t]).relation == RELATIONS_CATALOG
                        ==> page_records_ok(pages@[t]),
            decreases npages - i,
        {
            let page = &(**pages)[i];
            if page.relation == RELATIONS_CATALOG {
                let records = match page.get_records() {
                    Ok(r) => r,
                    Err(e) => {
                        return Err(e);
                    },
                };
                let ghost slots = nonhole_slots(
                    pages@[i as int].records@,
                    pages@[i as int].raw@,
                    pages@[i as int].records@.len() as int,
                );
                let ghost base = discovered_tables(pages@, i as int);
                let mut j: usize = 0;
                while j < records.len()
                    invariant
                        0 <= j <= records@.len(),
                        npages == pages@.len(),
                        0 <= i < npages,
                        forall|t: int| 0 <= t < pages@.len() ==> (#[trigger] pages@[t]).wf(),
                        slots == nonhole_slots(
                            pages@[i as int].records@,
                            pages@[i as int].raw@,
                            pages@[i as int].records@.len() as int,
                        ),
                        base == discovered_tables(pages@, i as int),
                        records@.len() == slots.len(),
                        forall|t: int|
                            0 <= t < records@.len() ==> crate::record::is_record_of(
                                #[trigger] records@[t],
                                slots[t],
                            ),
                        tables_match(tables@, base + tables_from_slots(slots.take(j as int)), pages@),
                    decreases records@.len() - j,
                {
                    let rec = &records[j];
                    let rec_data = match rec.read() {
                        Ok(d) => d,
                        Err(e) => {
                            return Err(e);
                        },
                    };
                    proof {
                        assert(slots.take(j + 1).drop_last() =~= slots.take(j as int));
                        assert(slots.take(j + 1).last() == slots[j as int]);
                        assert(rec_data@ == rec_payload(slots[j as int]));
                    }
                    if rec_data.len() >= 72 {
                        let name_raw = trim_range(&rec_data, 42, 72);
                        let name = string_from_utf8_lossy(&name_raw);
                        let is_system = contains_byte(&name_raw, 0x24);
                        let relation = rec_data[32] as u16;
                        tables.push(
                            Table {
                                name,
                                is_system_table: is_system,
                                relation,
                                pages: share_pages(pages),
                                name_raw,
                            },
                        );
                        proof {
                            assert(tables_from_slots(slots.take(j + 1)) =~= tables_from_slots(
                                slots.take(j as int),
                            ) + seq![table_of_payload(rec_payload(slots[j as int]))]);
                        }
                    } else {
                        proof {
                            assert(tables_from_slots(slots.take(j + 1)) =~= tables_from_slots(
                                slots.take(j as int),
                            ));
                        }
                    }
                    j = j + 1;
                }
                proof {
                    assert(slots.take(slots.len() as int) =~= slots);
                    assert(discovered_tables(pages@, i + 1) =~= base + tables_from_slots(slots));
                }
            } else {
                proof {
                    assert(discovered_tables(pages@, i + 1) =~= discovered_tables(
                        pages@,
                        i as int,
                    ));
                }
            }
            i = i + 1;
        }
        Ok(tables)
    }

    /// Prepares the table for access to its rows: resolves the column
    /// schema and opens a row cursor.
    pub fn prepare<'a>(&'a self) -> (r: Result<TablePreparated<'a>, Error>)
        requires
            self.wf(),
        ensures
            r is Ok <==> schema_ok(self.pages_view(), self.name_bytes()),
            r matches Ok(tp) ==> ({
                let infos = resolved_columns(
                    self.pages_view(),
                    self.pages_view().len() as int,
                    self.name_bytes(),
                );
                &&& tp.table == self
                &&& tp.page_idx == 0
                &&& tp.record_idx == 0
                &&& tp.wf()
                &&& tp.columns@.len() == infos.len()
                &&& forall|c: int|
                    0 <= c < infos.len() ==> column_matches(#[trigger] tp.columns@[c], infos[c])
            }),
    {
        TablePreparated::load(self)
    }
}

/// The position of the next record of relation `rel` at or after the
/// cursor position (`pi`, `ri`): the first non-hole slot, scanning the
/// remaining slots of the current page when it belongs to the
/// relation, then every later page of the relation, in order.
pub open spec fn next_pos(pages: Seq<DataPage>, rel: u16, pi: int, ri: int) -> Option<(int, int)>
    decreases pages.len() - pi, (if 0 <= pi < pages.len() && 0 <= ri <= pages[pi].records@.len() {
        pages[pi].records@.len() - ri
    } else {
        0
    }) + 1,
{
    if pi < 0 || pi >= pages.len() || ri < 0 {
        None
    } else if pages[pi].relation != rel || ri >= pages[pi].records@.len() {
        next_pos(pages, rel, pi + 1, 0)
    } else if pages[pi].records@[ri].length != 0 {
        Some((pi, ri))
    } else {
        next_pos(pages, rel, pi, ri + 1)
    }
}

/// The executable type-metadata fields agree with the resolved
/// metadata, or hold the defaults when nothing was resolved yet.
spec fn meta_state(
    meta: Option<FieldMeta>,
    size: usize,
    scale: i16,
    tp: ColumnType,
    computed: bool,
) -> bool {
    match meta {
        Some(m) => {
            &&& size == m.size as usize
            &&& scale as int == m.scale
            &&& computed == m.computed
            &&& known_type_code(m.code)
            &&& tp == type_of_code(m.code)
        },
        None => {
            &&& size == 0
            &&& scale == 0
            &&& tp == ColumnType::Smallint
            &&& !computed
        },
    }
}

/// A table prepared for row access: its resolved column schema and a
/// cursor over the record slots of its data pages.
pub struct TablePreparated<'a> {
    /// The resolved column schema, in catalog discovery order.
    pub columns: Vec<Column>,
    /// The table being read.
    pub table: &'a Table,
    /// The page the cursor stands on.
    pub page_idx: usize,
    /// The next record slot of that page the cursor will consider.
    pub record_idx: usize,
}

impl<'a> TablePreparated<'a> {
    /// The cursor's table and shared pages are well formed.
    pub open spec fn wf(&self) -> bool {
        self.table.wf()
    }

    /// The cursor has passed the last data page: every further read
    /// reports end of data.
    pub open spec fn exhausted(&self) -> bool {
        self.page_idx >= self.table.pages_view().len()
    }

    /// Resolves the column schema of `table` and opens a row cursor on
    /// it.  Each record of the relation-field catalog with at least 66
    /// decoded bytes whose owning-relation name matches the table's
    /// name (and which spans the furthest referenced field) declares
    /// one column; its type metadata comes from the last record of the
    /// field catalog that defines the column's source field, resolved
    /// by a second scan per column.  An unknown type code in any
    /// consulted field record fails the whole resolution.
    #[verifier::loop_isolation(false)]
    #[verifier::rlimit(60)]
    pub fn load(table: &'a Table) -> (r: Result<TablePreparated<'a>, Error>)
        requires
            table.wf(),
        ensures
            r is Ok <==> schema_ok(table.pages_view(), table.name_bytes()),
            r matches Ok(tp) ==> ({
                let infos = resolved_columns(
                    table.pages_view(),
                    table.pages_view().len() as int,
                    table.name_bytes(),
                );
                &&& tp.table == table
                &&& tp.page_idx == 0
                &&& tp.record_idx == 0
                &&& tp.wf()
                &&& tp.columns@.len() == infos.len()
                &&& forall|c: int|
                    0 <= c < infos.len() ==> column_matches(#[trigger] tp.columns@[c], infos[c])
            }),
    {
        let ghost pv = table.pages_view();
        let ghost tname = table.name_bytes();
        let npages = table.pages.len();
        let mut columns: Vec<Column> = Vec::new();
        let mut i: usize = 0;
        while i < npages
            invariant
                0 <= i <= npages,
                columns@.len() == resolved_columns(pv, i as int, tname).len(),
                forall|c: int|
                    0 <= c < columns@.len() ==> column_matches(
                        #[trigger] columns@[c],
                        resolved_columns(pv, i as int, tname)[c],
                    ),
                forall|c: int|
                    0 <= c < columns@.len() ==> field_codes_ok(
                        pv,
                        resolved_columns(pv, i as int, tname)[c].source,
                    ),
                columns@.len() > 0 ==> catalog_ok(pv, FIELDS_CATALOG),
                forall|t: int|
                    0 <= t < i && (#[trigger] pv[t]).relation == RELATION_FIELDS_CATALOG
                        ==> page_records_ok(pv[t]),
            decreases npages - i,
        {
            let page = &(*table.pages)[i];
            if page.relation == RELATION_FIELDS_CATALOG {
                let records = match page.get_records() {
                    Ok(r) => r,
                    Err(e) => {
                        return Err(e);
                    },
                };
                let ghost slots5 = page_slot_ranges(pv[i as int]);
                let ghost base = resolved_columns(pv, i as int, tname);
                let mut j: usize = 0;
                while j < records.len()
                    invariant
                        0 <= j <= records@.len(),
                        0 <= i < npages,
                        pv[i as int].relation == RELATION_FIELDS_CATALOG,
                        records@.len() == slots5.len(),
                        forall|t: int|
                            0 <= t < records@.len() ==> is_record_of(
                                #[trigger] records@[t],
                                slots5[t],
                            ),
                        page_records_ok(pv[i as int]),
                        columns@.len() == base.len() + columns_from_slots(
                            slots5.take(j as int),
                            tname,
                            pv,
                        ).len(),
                        forall|c: int|
                            0 <= c < columns@.len() ==> column_matches(
                                #[trigger] columns@[c],
                                (base + columns_from_slots(slots5.take(j as int), tname, pv))[c],
                            ),
                        forall|c: int|
                            0 <= c < columns@.len() ==> field_codes_ok(
                                pv,
                                (base + columns_from_slots(slots5.take(j as int), tname, pv))[c].source,
                            ),
                        columns@.len() > 0 ==> catalog_ok(pv, FIELDS_CATALOG),
                    decreases records@.len() - j,
                {
                    let rec = &records[j];
                    let rec_data = match rec.read() {
                        Ok(d) => d,
                        Err(e) => {
                            return Err(e);
                        },
                    };
                    let ghost payload = rec_payload(slots5[j as int]);
                    proof {
                        assert(slots5.take(j + 1).drop_last() =~= slots5.take(j as int));
                        assert(slots5.take(j + 1).last() == slots5[j as int]);
                        assert(rec_data@ == payload);
                    }
                    let mut is_candidate = false;
                    if rec_data.len() >= 66 {
                        let rname = trim_range(&rec_data, 35, 66);
                        if bytes_eq(&rname, &table.name_raw) && rec_data.len() >= 393 {
                            is_candidate = true;
                        }
                    }
                    if is_candidate {
                        proof {
                            assert(column_rec_matches(payload, tname));
                            assert(columns_from_slots(slots5.take(j + 1), tname, pv)
                                =~= columns_from_slots(slots5.take(j as int), tname, pv) + seq![
                                column_info_of(payload, pv),
                            ]);
                        }
                        let ghost info = column_info_of(payload, pv);
                        let ghost ci = columns@.len() as int;
                        proof {
                            lemma_columns_take_prefix(slots5, tname, pv, j + 1);
                            let a = columns_from_slots(slots5.take(j + 1), tname, pv);
                            let b = columns_from_slots(slots5, tname, pv);
                            let full_i1 = base + b;
                            assert(resolved_columns(pv, i + 1, tname) =~= full_i1);
                            assert((base + a)[ci] == info);
                            assert(a[ci - base.len()] == b.subrange(0, a.len() as int)[ci
                                - base.len()]);
                            assert(full_i1[ci] == info);
                            lemma_resolved_columns_prefix(pv, i + 1, npages as int, tname);
                            let r_np = resolved_columns(pv, npages as int, tname);
                            assert(full_i1[ci] == r_np.subrange(0, full_i1.len() as int)[ci]);
                            assert(r_np[ci] == info);
                            assert(r_np.len() > ci);
                        }
                        let fname_raw = trim_range(&rec_data, 4, 35);
                        let source_raw = trim_range(&rec_data, 65, 96);
                        let not_null = rec_data[392] != 0;
                        let position = rec_data[290] as usize;
                        let ghost source = source_raw@;
                        let mut size: usize = 0;
                        let mut scale: i16 = 0;
                        let mut tp = ColumnType::Smallint;
                        let mut computed = false;
                        let ghost mut meta: Option<FieldMeta> = None;
                        let mut t2: usize = 0;
                        while t2 < npages
                            invariant
                                0 <= t2 <= npages,
                                source == source_raw@,
                                meta == field_meta_from_pages(pv, t2 as int, source),
                                meta_state(meta, size, scale, tp, computed),
                                forall|t: int|
                                    0 <= t < t2 && (#[trigger] pv[t]).relation == FIELDS_CATALOG
                                        ==> page_records_ok(pv[t]),
                                forall|t: int|
                                    0 <= t < t2 && (#[trigger] pv[t]).relation == FIELDS_CATALOG
                                        ==> field_codes_ok_page(pv[t], source),
                            decreases npages - t2,
                        {
                            let fpage = &(*table.pages)[t2];
                            if fpage.relation == FIELDS_CATALOG {
                                let frecs = match fpage.get_records() {
                                    Ok(r) => r,
                                    Err(e) => {
                                        return Err(e);
                                    },
                                };
                                let ghost slots2 = page_slot_ranges(pv[t2 as int]);
                                let ghost meta_in = meta;
                                let mut j2: usize = 0;
                                while j2 < frecs.len()
                                    invariant
                                        0 <= j2 <= frecs@.len(),
                                        0 <= t2 < npages,
                                        pv[t2 as int].relation == FIELDS_CATALOG,
                                        source == source_raw@,
                                        frecs@.len() == slots2.len(),
                                        forall|t: int|
                                            0 <= t < frecs@.len() ==> is_record_of(
                                                #[trigger] frecs@[t],
                                                slots2[t],
                                            ),
                                        meta == meta_or(
                                            meta_in,
                                            field_meta_from_slots(slots2.take(j2 as int), source),
                                        ),
                                        meta_in == field_meta_from_pages(pv, t2 as int, source),
                                        meta_state(meta, size, scale, tp, computed),
                                        forall|q: int|
                                            0 <= q < j2 && field_rec_matches(
                                                rec_payload(#[trigger] slots2[q]),
                                                source,
                                            ) ==> known_type_code(
                                                field_meta_of(rec_payload(slots2[q])).code,
                                            ),
                                    decreases frecs@.len() - j2,
                                {
                                    let frec = &frecs[j2];
                                    let frec_data = match frec.read() {
                                        Ok(d) => d,
                                        Err(e) => {
                                            return Err(e);
                                        },
                                    };
                                    let ghost payload2 = rec_payload(slots2[j2 as int]);
                                    proof {
                                        assert(slots2.take(j2 + 1).drop_last() =~= slots2.take(
                                            j2 as int,
                                        ));
                                        assert(slots2.take(j2 + 1).last() == slots2[j2 as int]);
                                        assert(frec_data@ == payload2);
                                    }
                                    let mut is_def = false;
                                    if frec_data.len() >= 126 {
                                        let fdef_name = trim_range(&frec_data, 4, 35);
                                        if bytes_eq(&fdef_name, &source_raw) {
                                            is_def = true;
                                        }
                                    }
                                    if is_def {
                                        proof {
                                            assert(field_rec_matches(payload2, source));
                                        }
                                        let code = read_i16_at(&frec_data, 124);
                                        match ColumnType::from_code(code) {
                                            Ok(t) => {
                                                tp = t;
                                                size = frec_data[120] as usize;
                                                scale = read_i16_at(&frec_data, 122);
                                                computed = frec_data[88] > 0;
                                                proof {
                                                    meta = Some(field_meta_of(payload2));
                                                }
                                            },
                                            Err(e) => {
                                                proof {
                                                    assert(!field_codes_ok_page(
                                                        pv[t2 as int],
                                                        source,
                                                    ));
                                                    assert(!field_codes_ok(pv, source));
                                                    assert(!schema_ok(pv, tname));
                                                }
                                                return Err(e);
                                            },
                                        }
                                    } else {
                                        proof {
                                            assert(!field_rec_matches(payload2, source));
                                        }
                                    }
                                    j2 = j2 + 1;
                                }
                                proof {
                                    assert(slots2.take(slots2.len() as int) =~= slots2);
                                    assert(field_codes_ok_page(pv[t2 as int], source));
                                    assert(field_meta_from_pages(pv, t2 + 1, source) == meta_or(
                                        meta_in,
                                        field_meta_from_slots(slots2, source),
                                    ));
                                }
                            }
                            t2 = t2 + 1;
                        }
                        let name = string_from_utf8_lossy(&fname_raw);
                        let src = string_from_utf8_lossy(&source_raw);
                        columns.push(
                            Column {
                                name,
                                position,
                                source: src,
                                size,
                                scale,
                                tp,
                                not_null,
                                computed,
                            },
                        );
                        proof {
                            assert(meta == info.meta);
                            assert(column_matches(columns@[ci], info));
                            assert(field_codes_ok(pv, info.source));
                            let cur = base + columns_from_slots(slots5.take(j + 1), tname, pv);
                            let old_cur = base + columns_from_slots(
                                slots5.take(j as int),
                                tname,
                                pv,
                            );
                            assert(cur.len() == old_cur.len() + 1);
                            assert forall|c: int| 0 <= c < ci implies cur[c] == old_cur[c] by {
                                assert(columns_from_slots(slots5.take(j + 1), tname, pv)
                                    == columns_from_slots(slots5.take(j as int), tname, pv)
                                    + seq![info]);
                            }
                            assert(cur[ci] == info);
                        }
                    } else {
                        proof {
                            assert(!column_rec_matches(payload, tname));
                            assert(columns_from_slots(slots5.take(j + 1), tname, pv)
                                =~= columns_from_slots(slots5.take(j as int), tname, pv));
                        }
                    }
                    j = j + 1;
                }
                proof {
                    assert(slots5.take(slots5.len() as int) =~= slots5);
                    assert(resolved_columns(pv, i + 1, tname) =~= base + columns_from_slots(
                        slots5,
                        tname,
                        pv,
                    ));
                }
            } else {
                proof {
                    assert(resolved_columns(pv, i + 1, tname) =~= resolved_columns(
                        pv,
                        i as int,
                        tname,
                    ));
                }
            }
            i = i + 1;
        }
        Ok(TablePreparated { columns, table, page_idx: 0, record_idx: 0 })
    }

    /// Reads the next row of the table through the cursor.  The cursor
    /// advances slot by slot within the current page of the table's
    /// relation, skips holes, moves to the next page of the relation
    /// when the slots are exhausted, and reports end of data — not an
    /// error — once no further page remains.  Reading past the end is
    /// stable: every further read reports end of data again.
    #[verifier::loop_isolation(false)]
    pub fn read(&mut self) -> (r: Result<Option<Row>, Error>)
        requires
            old(self).wf(),
        ensures
            final(self).wf(),
            final(self).columns == old(self).columns,
            final(self).table == old(self).table,
            old(self).exhausted() ==> (r matches Ok(v) && v is None && final(self).page_idx
                == old(self).page_idx && final(self).record_idx == old(self).record_idx),
            (r matches Ok(v) && v is None) ==> final(self).exhausted(),
            ({
                let pages = old(self).table.pages_view();
                let np = next_pos(
                    pages,
                    old(self).table.relation,
                    old(self).page_idx as int,
                    old(self).record_idx as int,
                );
                &&& (np is None ==> (r matches Ok(v) && v is None))
                &&& (np matches Some(pos) ==> ({
                    let sb = slot_range(pages[pos.0].raw@, pages[pos.0].records@[pos.1]);
                    let payload = rec_payload(sb);
                    let ok = record_size_ok(sb) && row_ok_upto(
                        old(self).columns@,
                        payload,
                        old(self).columns@.len() as int,
                    );
                    &&& (ok ==> (r matches Ok(v) && v matches Some(row) && row_matches(
                        row,
                        old(self).columns@,
                        payload,
                    ) && final(self).page_idx == pos.0 && final(self).record_idx == pos.1 + 1))
                    &&& (!ok ==> r is Err)
                }))
            }),
    {
        let table = self.table;
        let npages = table.pages.len();
        let ghost pv = table.pages_view();
        let ghost rel = table.relation;
        let ghost pi0 = old(self).page_idx as int;
        let ghost ri0 = old(self).record_idx as int;
        loop
            invariant
                self.table == old(self).table,
                self.columns == old(self).columns,
                0 <= self.page_idx,
                0 <= self.record_idx,
                next_pos(pv, rel, self.page_idx as int, self.record_idx as int) == next_pos(
                    pv,
                    rel,
                    pi0,
                    ri0,
                ),
                old(self).exhausted() ==> self.page_idx == old(self).page_idx
                    && self.record_idx == old(self).record_idx,
            decreases
                    pv.len() - self.page_idx,
                    (if self.page_idx < pv.len() && self.record_idx <= pv[self.page_idx as int].records@.len() {
                        pv[self.page_idx as int].records@.len() - self.record_idx
                    } else {
                        0int
                    }),
        {
            if self.page_idx >= npages {
                return Ok(None);
            }
            let page = &(*table.pages)[self.page_idx];
            if page.relation != table.relation || self.record_idx >= page.records.len() {
                self.page_idx = self.page_idx + 1;
                self.record_idx = 0;
            } else {
                let slot = page.records[self.record_idx];
                if slot.length == 0 {
                    self.record_idx = self.record_idx + 1;
                } else {
                    proof {
                        assert(next_pos(pv, rel, pi0, ri0) == Some(
                            (self.page_idx as int, self.record_idx as int),
                        ));
                    }
                    let rec = match page.get_record(slot) {
                        Ok(Some(rec)) => rec,
                        Ok(None) => {
                            proof {
                                assert(false);
                            }
                            return Ok(None);
                        },
                        Err(e) => {
                            return Err(e);
                        },
                    };
                    let rec_data = match rec.read() {
                        Ok(d) => d,
                        Err(e) => {
                            return Err(e);
                        },
                    };
                    self.record_idx = self.record_idx + 1;
                    match Row::load(&self.columns, rec_data) {
                        Ok(row) => {
                            return Ok(Some(row));
                        },
                        Err(e) => {
                            return Err(e);
                        },
                    }
                }
            }
        }
    }
}

} // verus!
