//! End-to-end tests against a small hand-built database image.

use rfirebird::{Column, ColumnType, Database, Error, Value};

const PS: usize = 1024;

fn rle_encode(payload: &[u8]) -> Vec<u8> {
    let mut out = Vec::new();
    for chunk in payload.chunks(127) {
        out.push(chunk.len() as u8);
        out.extend_from_slice(chunk);
    }
    out.push(0);
    out
}

fn record_bytes(payload: &[u8]) -> Vec<u8> {
    let mut out = vec![0u8; 13];
    out.extend(rle_encode(payload));
    out
}

fn data_page(relation: u16, slots: &[Option<Vec<u8>>]) -> Vec<u8> {
    let mut b = vec![0u8; PS];
    b[0] = 0x05;
    b[20] = (relation & 0xff) as u8;
    b[21] = (relation >> 8) as u8;
    let count = slots.len() as u16;
    b[22] = (count & 0xff) as u8;
    b[23] = (count >> 8) as u8;
    let mut off = 24 + 4 * slots.len();
    for (i, s) in slots.iter().enumerate() {
        if let Some(payload) = s {
            let rec = record_bytes(payload);
            let e = 24 + 4 * i;
            b[e] = (off & 0xff) as u8;
            b[e + 1] = (off >> 8) as u8;
            b[e + 2] = (rec.len() & 0xff) as u8;
            b[e + 3] = (rec.len() >> 8) as u8;
            b[off..off + rec.len()].copy_from_slice(&rec);
            off += rec.len();
        }
    }
    b
}

fn write_padded(d: &mut [u8], from: usize, to: usize, s: &str) {
    for i in from..to {
        d[i] = b' ';
    }
    d[from..from + s.len()].copy_from_slice(s.as_bytes());
}

fn rel6_payload(name: &str, relation: u8) -> Vec<u8> {
    let mut d = vec![0u8; 72];
    d[32] = relation;
    write_padded(&mut d, 42, 72, name);
    d
}

fn rel5_payload(field: &str, rel_name: &str, source: &str, position: u8, not_null: u8) -> Vec<u8> {
    let mut d = vec![0u8; 393];
    write_padded(&mut d, 4, 35, field);
    write_padded(&mut d, 35, 66, rel_name);
    // byte 65 is shared between the relation-name and source spans;
    // it stays padding so both trim cleanly
    d[65] = b' ';
    write_padded(&mut d, 66, 96, source);
    d[290] = position;
    d[392] = not_null;
    d
}

fn rel2_payload(field: &str, computed: bool, size: u8, scale: i16, code: i16) -> Vec<u8> {
    let mut d = vec![0u8; 126];
    write_padded(&mut d, 4, 35, field);
    d[88] = if computed { 1 } else { 0 };
    d[120] = size;
    d[122] = (scale as u16 & 0xff) as u8;
    d[123] = (scale as u16 >> 8) as u8;
    d[124] = (code as u16 & 0xff) as u8;
    d[125] = (code as u16 >> 8) as u8;
    d
}

fn varchar_cell(size: usize, text: &str) -> Vec<u8> {
    let span = size + 2 + if size % 2 != 0 { 1 } else { 0 };
    let mut v = vec![0u8; span];
    v[0] = text.len() as u8;
    v[2..2 + text.len()].copy_from_slice(text.as_bytes());
    v
}

fn country_row(country: &str, currency: &str) -> Vec<u8> {
    let mut d = vec![0xFE, 0x00, 0x00, 0x00];
    d.extend(varchar_cell(15, country));
    d.extend(varchar_cell(10, currency));
    d
}

fn items_row(id: i32, qty: i16) -> Vec<u8> {
    let mut d = vec![0xFE, 0x00, 0x00, 0x00];
    d.extend_from_slice(&id.to_le_bytes());
    d.extend_from_slice(&qty.to_le_bytes());
    d
}

fn build_db(qty_code: i16) -> Vec<u8> {
    let mut file = vec![0u8; PS];
    file[0] = 0x01;
    file[16] = (PS & 0xff) as u8;
    file[17] = (PS >> 8) as u8;
    file[18] = 13;

    // relations catalog
    file.extend(data_page(
        6,
        &[
            Some(rel6_payload("COUNTRY", 128)),
            Some(rel6_payload("ITEMS", 130)),
            Some(rel6_payload("RDB$DATABASE", 63)),
        ],
    ));
    // relation-field catalog, spread over two pages
    // the not-null flag convention is nonzero versus zero: any
    // nonzero byte marks the column as not-null
    file.extend(data_page(
        5,
        &[
            Some(rel5_payload("COUNTRY", "COUNTRY", "CNTRYSRC", 0, 2)),
            Some(rel5_payload("CURRENCY", "COUNTRY", "CURRSRC", 1, 0)),
        ],
    ));
    file.extend(data_page(
        5,
        &[
            Some(rel5_payload("ID", "ITEMS", "IDSRC", 0, 1)),
            Some(rel5_payload("QTY", "ITEMS", "QTYSRC", 1, 0)),
        ],
    ));
    // field catalog
    file.extend(data_page(
        2,
        &[
            Some(rel2_payload("CNTRYSRC", false, 15, 0, 37)),
            Some(rel2_payload("CURRSRC", false, 10, 0, 37)),
            Some(rel2_payload("IDSRC", false, 4, 0, 8)),
            Some(rel2_payload("QTYSRC", false, 2, 0, qty_code)),
        ],
    ));
    // a page of another type: skipped whole
    let mut other = vec![0u8; PS];
    other[0] = 0x02;
    file.extend(other);
    // COUNTRY data, with a hole between the two rows
    file.extend(data_page(
        128,
        &[
            Some(country_row("USA", "Dollar")),
            None,
            Some(country_row("England", "Pound")),
        ],
    ));
    // ITEMS data, spread over two pages
    file.extend(data_page(130, &[Some(items_row(1001, -5))]));
    file.extend(data_page(130, &[Some(items_row(2002, 7))]));
    file
}

#[test]
fn list_tables_of_fixture() {
    let bytes = build_db(7);
    let db = Database::open(&bytes).unwrap();
    assert_eq!(1024, db.header.page_size);

    let tables = db.tables().unwrap();
    assert_eq!(3, tables.len());

    assert_eq!("COUNTRY", tables[0].name);
    assert_eq!(128, tables[0].relation);
    assert!(!tables[0].is_system_table);

    assert_eq!("ITEMS", tables[1].name);
    assert_eq!(130, tables[1].relation);
    assert!(!tables[1].is_system_table);

    assert_eq!("RDB$DATABASE", tables[2].name);
    assert!(tables[2].is_system_table);
}

#[test]
fn table_discovery_is_idempotent() {
    let bytes = build_db(7);
    let db1 = Database::open(&bytes).unwrap();
    let db2 = Database::open(&bytes).unwrap();
    let t1 = db1.tables().unwrap();
    let t2 = db2.tables().unwrap();
    assert_eq!(t1.len(), t2.len());
    for (a, b) in t1.iter().zip(t2.iter()) {
        assert_eq!(a.name, b.name);
        assert_eq!(a.relation, b.relation);
        assert_eq!(a.is_system_table, b.is_system_table);
    }
}

#[test]
fn columns_of_table_country() {
    let bytes = build_db(7);
    let db = Database::open(&bytes).unwrap();
    let tables = db.tables().unwrap();
    let table = tables.into_iter().find(|t| t.name == "COUNTRY").unwrap();

    let ptable = table.prepare().unwrap();
    assert_eq!(2, ptable.columns.len());
    assert_eq!(
        Column {
            name: "COUNTRY".to_string(),
            position: 0,
            source: "CNTRYSRC".to_string(),
            size: 15,
            scale: 0,
            tp: ColumnType::Varchar,
            not_null: true,
            computed: false,
        },
        ptable.columns[0]
    );
    assert_eq!(
        Column {
            name: "CURRENCY".to_string(),
            position: 1,
            source: "CURRSRC".to_string(),
            size: 10,
            scale: 0,
            tp: ColumnType::Varchar,
            not_null: false,
            computed: false,
        },
        ptable.columns[1]
    );
}

#[test]
fn reading_country_rows() {
    let bytes = build_db(7);
    let db = Database::open(&bytes).unwrap();
    let tables = db.tables().unwrap();
    let table = tables.into_iter().find(|t| t.name == "COUNTRY").unwrap();

    let mut ptable = table.prepare().unwrap();

    let row1 = ptable.read().unwrap().unwrap();
    assert_eq!(Some(Value::String("USA".to_string())), row1.values[0]);
    assert_eq!(Some(Value::String("Dollar".to_string())), row1.values[1]);
    assert_eq!(
        vec![
            vec![0x3, 0x0, 0x55, 0x53, 0x41, 0x0, 0x0, 0x0, 0x0, 0x0, 0x0, 0x0, 0x0, 0x0, 0x0, 0x0, 0x0, 0x0],
            vec![0x06, 0x0, 0x44, 0x6F, 0x6C, 0x6C, 0x61, 0x72, 0x0, 0x0, 0x0, 0x0],
        ],
        row1.raw
    );

    // the hole between the two records is skipped, not reported
    let row2 = ptable.read().unwrap().unwrap();
    assert_eq!(Some(Value::String("England".to_string())), row2.values[0]);
    assert_eq!(Some(Value::String("Pound".to_string())), row2.values[1]);
}

#[test]
fn reading_past_the_last_row_is_stable() {
    let bytes = build_db(7);
    let db = Database::open(&bytes).unwrap();
    let tables = db.tables().unwrap();
    let table = tables.into_iter().find(|t| t.name == "COUNTRY").unwrap();

    let mut ptable = table.prepare().unwrap();
    assert!(ptable.read().unwrap().is_some());
    assert!(ptable.read().unwrap().is_some());
    // end of data, not an error, and stable over repeated reads
    assert!(ptable.read().unwrap().is_none());
    assert!(ptable.read().unwrap().is_none());
    assert!(ptable.read().unwrap().is_none());
}

#[test]
fn reading_integer_and_smallint_rows() {
    let bytes = build_db(7);
    let db = Database::open(&bytes).unwrap();
    let tables = db.tables().unwrap();
    let table = tables.into_iter().find(|t| t.name == "ITEMS").unwrap();

    let mut ptable = table.prepare().unwrap();
    let row = ptable.read().unwrap().unwrap();
    assert_eq!(Some(Value::Int(1001)), row.values[0]);
    assert_eq!(Some(Value::SmallInt(-5)), row.values[1]);

    // the second row lives on the table's second data page
    let row2 = ptable.read().unwrap().unwrap();
    assert_eq!(Some(Value::Int(2002)), row2.values[0]);
    assert_eq!(Some(Value::SmallInt(7)), row2.values[1]);

    assert!(ptable.read().unwrap().is_none());
}

#[test]
fn unknown_type_code_fails_schema_resolution() {
    // 99 is not a known catalog type code
    let bytes = build_db(99);
    let db = Database::open(&bytes).unwrap();
    let tables = db.tables().unwrap();
    let table = tables.into_iter().find(|t| t.name == "ITEMS").unwrap();

    match table.prepare() {
        // the message names the offending code
        Err(Error::Other(msg)) => assert!(msg.contains("99")),
        other => panic!("expected an unknown-type error, got {:?}", other.map(|_| ())),
    }
}

#[test]
fn negative_type_code_is_named_in_the_error() {
    let bytes = build_db(-3);
    let db = Database::open(&bytes).unwrap();
    let tables = db.tables().unwrap();
    let table = tables.into_iter().find(|t| t.name == "ITEMS").unwrap();

    match table.prepare() {
        Err(Error::Other(msg)) => assert!(msg.contains("-3")),
        other => panic!("expected an unknown-type error, got {:?}", other.map(|_| ())),
    }
}

#[test]
fn open_rejects_short_file() {
    let bytes = vec![0x01u8; 100];
    assert!(Database::open(&bytes).is_err());
}

#[test]
fn open_rejects_wrong_header_tag() {
    let mut bytes = build_db(7);
    bytes[0] = 0x09;
    match Database::open(&bytes) {
        Err(Error::InvalidPage { tpe, expected, .. }) => {
            assert_eq!(0x09, tpe);
            assert_eq!(0x01, expected);
        }
        other => panic!("expected an invalid-page error, got {:?}", other.map(|_| ())),
    }
}
