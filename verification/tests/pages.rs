//! Tests of header and data page decoding.

use rfirebird::{DataPage, DataPageRecord, Error, HeaderPage, RecordHeader};

fn header_block(tag: u8, page_size: u16) -> Vec<u8> {
    let mut b = vec![0u8; 1024];
    b[0] = tag;
    b[16] = (page_size & 0xff) as u8;
    b[17] = (page_size >> 8) as u8;
    // ODS version
    b[18] = 13;
    b
}

#[test]
fn header_page_decodes_fields() {
    let block = header_block(0x01, 8192);
    let h = HeaderPage::from_bytes(&block).unwrap();
    assert_eq!(0x01, h.pag.ptype);
    assert_eq!(8192u16, h.page_size);
    assert_eq!(13u16, h.ods_version);
}

#[test]
fn header_page_rejects_wrong_tag() {
    // a block whose first byte is not the header tag must be rejected,
    // never silently accepted
    let block = header_block(0x05, 8192);
    match HeaderPage::from_bytes(&block) {
        Err(Error::InvalidPage { tpe, expected, .. }) => {
            assert_eq!(0x05, tpe);
            assert_eq!(0x01, expected);
        }
        other => panic!("expected an invalid-page error, got {:?}", other),
    }
}

fn empty_data_page(count: u16) -> Vec<u8> {
    let mut b = vec![0u8; 4096];
    b[0] = 0x05;
    b[22] = (count & 0xff) as u8;
    b[23] = (count >> 8) as u8;
    b
}

#[test]
fn data_page_rejects_wrong_tag() {
    let mut b = vec![0u8; 1024];
    b[0] = 0x03;
    match DataPage::from_bytes(b) {
        Err(Error::InvalidPage { tpe, expected, .. }) => {
            assert_eq!(0x03, tpe);
            assert_eq!(0x05, expected);
        }
        other => panic!("expected an invalid-page error, got {:?}", other),
    }
}

#[test]
fn data_page_rejects_record_count_over_capacity() {
    let b = empty_data_page(513);
    match DataPage::from_bytes(b) {
        Err(Error::Overflow { limit, value, .. }) => {
            assert_eq!(512, limit);
            assert_eq!(513, value);
        }
        other => panic!("expected an overflow error, got {:?}", other),
    }
}

#[test]
fn data_page_accepts_capacity_boundary() {
    // 512 slots are within the capacity; all holes here
    let b = empty_data_page(512);
    let page = DataPage::from_bytes(b).unwrap();
    assert_eq!(512, page.count);
    assert_eq!(512, page.records.len());
}

#[test]
fn data_page_rejects_slot_outside_page() {
    let mut b = empty_data_page(1);
    // one slot pointing past the end of the page
    b[24] = 0x00;
    b[25] = 0x0f; // offset 3840
    b[26] = 0x00;
    b[27] = 0x02; // length 512 -> 4352 > 4096
    match DataPage::from_bytes(b) {
        Err(Error::Overflow { .. }) => {}
        other => panic!("expected an overflow error, got {:?}", other),
    }
}

#[test]
fn data_page_decodes_directory() {
    let mut b = empty_data_page(2);
    b[16] = 7; // sequence
    b[20] = 128; // relation
    // slot 0: offset 100, length 20
    b[24] = 100;
    b[26] = 20;
    // slot 1: a hole
    let page = DataPage::from_bytes(b).unwrap();
    assert_eq!(0x05, page.pag.ptype);
    assert_eq!(7, page.sequence);
    assert_eq!(128, page.relation);
    assert_eq!(2, page.count);
    assert_eq!(DataPageRecord { offset: 100, length: 20 }, page.records[0]);
    assert_eq!(DataPageRecord { offset: 0, length: 0 }, page.records[1]);
}

#[test]
fn get_record_skips_holes() {
    let b = empty_data_page(1);
    let page = DataPage::from_bytes(b).unwrap();
    let rec = page.get_record(DataPageRecord { offset: 0, length: 0 }).unwrap();
    assert!(rec.is_none());
}

#[test]
fn record_header_rejects_oversized_fragment() {
    match RecordHeader::from_bytes(vec![0u8; 1030]) {
        Err(Error::Overflow { limit, value, .. }) => {
            assert_eq!(1024, limit);
            assert_eq!(1030, value);
        }
        other => panic!("expected an overflow error, got {:?}", other),
    }
}

#[test]
fn record_header_rejects_short_fragment() {
    match RecordHeader::from_bytes(vec![0u8; 5]) {
        Err(Error::Other(_)) => {}
        other => panic!("expected an error, got {:?}", other),
    }
}

#[test]
fn record_header_decodes_prefix_and_payload() {
    // transaction -2 little-endian, back page 9, back line 3, flags 1,
    // format 4, then a compressed payload
    let mut bytes = vec![0xFE, 0xFF, 0xFF, 0xFF, 0x09, 0x00, 0x00, 0x00, 0x03, 0x00, 0x01, 0x00, 0x04];
    bytes.extend_from_slice(&[0x02, 0x41, 0x42, 0x00]);
    let rec = RecordHeader::from_bytes(bytes).unwrap();
    assert_eq!(-2, rec.transaction);
    assert_eq!(9, rec.b_page);
    assert_eq!(3, rec.b_line);
    assert_eq!(1, rec.flags);
    assert_eq!(4, rec.format);
    assert_eq!(vec![0x02, 0x41, 0x42, 0x00], rec.data);
    assert_eq!(vec![0x41, 0x42], rec.read().unwrap());
}
