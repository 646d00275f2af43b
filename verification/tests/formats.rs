use codecrafters_sqlite::btree::parse_leaf_cell;
use codecrafters_sqlite::common::{cast_signed, cast_unsigned, int_be, to_usize, varint};
use codecrafters_sqlite::error::StorageError;
use codecrafters_sqlite::page::{
    db_header, page_header, page_size, parse_first_page, read_page, PageHeader, PageType,
};
use codecrafters_sqlite::record::{Column, RecordHdr, SerialType};

#[test]
fn varint_ignores_trailing_bytes() {
    assert_eq!(varint(&[0x81, 0x00]).unwrap(), (128, 2));
    assert_eq!(varint(&[0x81, 0x00, 0xff, 0x12]).unwrap(), (128, 2));
}

#[test]
fn varint_nine_bytes_take_all_bits_of_the_last() {
    let all_ones = [0xffu8; 9];
    assert_eq!(varint(&all_ones).unwrap(), (-1, 9));
    let mut one = [0x80u8; 9];
    one[8] = 0x01;
    assert_eq!(varint(&one).unwrap(), (1, 9));
    let mut top = [0x80u8; 9];
    top[0] = 0x81;
    top[8] = 0x00;
    // the first byte's payload bit is shifted past seven more 7-bit groups and the last 8 bits
    assert_eq!(varint(&top).unwrap(), (1i64 << 57, 9));
}

#[test]
fn varint_errors() {
    assert!(matches!(varint(&[]), Err(StorageError::TruncatedVarint)));
    assert!(matches!(varint(&[0xff; 8]), Err(StorageError::TruncatedVarint)));
}

#[test]
fn int_be_sign_extends() {
    assert_eq!(int_be(&[0xfe]).unwrap(), -2);
    assert_eq!(int_be(&[0xff, 0xfe]).unwrap(), -2);
    assert_eq!(int_be(&[0x7f]).unwrap(), 127);
    assert_eq!(int_be(&[0x00, 0x7f]).unwrap(), 127);
    assert_eq!(int_be(&[0x80, 0, 0, 0, 0, 0, 0, 0]).unwrap(), i64::MIN);
    assert_eq!(int_be(&[0x7f, 0xff, 0xff, 0xff, 0xff, 0xff, 0xff, 0xff]).unwrap(), i64::MAX);
    assert_eq!(int_be(&[0xff, 0xff, 0xfe]).unwrap(), -2);
    assert_eq!(int_be(&[0x00, 0x01, 0x00, 0x00, 0x00, 0x00]).unwrap(), 1 << 32);
}

#[test]
fn casts_wrap() {
    assert_eq!(cast_signed(u64::MAX), -1);
    assert_eq!(cast_signed(5), 5);
    assert_eq!(cast_unsigned(-1), u64::MAX);
    assert_eq!(cast_unsigned(i64::MIN), 1u64 << 63);
}

#[test]
fn to_usize_names_what_is_out_of_range() {
    assert_eq!(to_usize(7, "x").unwrap(), 7);
    match to_usize(-3, "root page number") {
        Err(StorageError::OutOfRange { what, value }) => {
            assert_eq!(what, "root page number");
            assert_eq!(value, -3);
        }
        other => panic!("unexpected {other:?}"),
    }
}

#[test]
fn serial_types_and_sizes() {
    let expected = [
        (0u64, SerialType::Null, 0usize),
        (1, SerialType::I8, 1),
        (2, SerialType::I16, 2),
        (3, SerialType::I24, 3),
        (4, SerialType::I32, 4),
        (5, SerialType::I48, 6),
        (6, SerialType::I64, 8),
        (7, SerialType::F64, 8),
        (8, SerialType::Zero, 0),
        (9, SerialType::One, 0),
        (13, SerialType::Text(0), 0),
        (14, SerialType::Blob(1), 1),
        (25, SerialType::Text(6), 6),
    ];
    for (code, t, size) in expected {
        assert_eq!(SerialType::try_from(code).unwrap(), t);
        assert_eq!(t.size(), size);
    }
    assert!(matches!(SerialType::try_from(11), Err(StorageError::ReservedSerialType(11))));
    assert!(matches!(SerialType::try_from(10), Err(StorageError::ReservedSerialType(10))));
}

#[test]
fn column_parse_kinds() {
    assert_eq!(
        Column::parse(&[0x3f, 0xf0, 0, 0, 0, 0, 0, 0, 9], SerialType::F64).unwrap(),
        (Column::Float(0x3ff0_0000_0000_0000), 8)
    );
    assert_eq!(
        Column::parse(&[1, 2, 3], SerialType::Blob(2)).unwrap(),
        (Column::Blob(vec![1, 2]), 2)
    );
    assert_eq!(Column::parse(&[], SerialType::Null).unwrap(), (Column::Null, 0));
    assert_eq!(Column::parse(&[], SerialType::One).unwrap(), (Column::Int(1), 0));
    assert_eq!(
        Column::parse("héllo".as_bytes(), SerialType::Text(6)).unwrap(),
        (Column::Text("héllo".to_string()), 6)
    );
    assert!(matches!(
        Column::parse(&[0xff, 0xfe], SerialType::Text(2)),
        Err(StorageError::InvalidUtf8)
    ));
    assert!(matches!(
        Column::parse(&[0x00], SerialType::I32),
        Err(StorageError::Truncated { need: 4, have: 1 })
    ));
}

#[test]
fn column_duplicate_keeps_value() {
    let c = Column::Text("abc".to_string());
    assert_eq!(c.duplicate(), c);
    let b = Column::Blob(vec![9, 8]);
    assert_eq!(b.duplicate(), b);
}

#[test]
fn record_header_keeps_types() {
    let h = RecordHdr::new(vec![SerialType::I8, SerialType::Text(3)]);
    assert_eq!(h.serial_types(), &[SerialType::I8, SerialType::Text(3)]);
}

#[test]
fn leaf_cell_with_text_and_int() {
    let cell = [0x09, 0x07, 0x03, 0x17, 0x01, b'a', b'p', b'p', b'l', b'e', 0x2a, 0xee];
    let (c, off) = parse_leaf_cell(&cell).unwrap();
    assert_eq!(c.rowid, 7);
    assert_eq!(c.record.values, vec![Column::Text("apple".into()), Column::Int(42)]);
    assert_eq!(off, 11);
}

#[test]
fn zero_width_columns_may_end_the_record() {
    let cell = [0x06, 0x01, 0x05, 0x01, 0x08, 0x09, 0x00, 0x05];
    let (c, off) = parse_leaf_cell(&cell).unwrap();
    assert_eq!(
        c.record.values,
        vec![Column::Int(5), Column::Int(0), Column::Int(1), Column::Null]
    );
    assert_eq!(off, 8);
}

#[test]
fn leaf_cell_errors() {
    // payload too small for the text column
    let cell = [0x03, 0x07, 0x03, 0x17, 0x01, b'a', b'p', b'p', b'l', b'e', 0x2a];
    assert!(matches!(parse_leaf_cell(&cell), Err(StorageError::RecordOverrun)));
    // a negative payload size
    let mut neg = vec![0xffu8; 9];
    neg.extend_from_slice(&[0x01, 0x01, 0x00]);
    match parse_leaf_cell(&neg) {
        Err(StorageError::OutOfRange { what, value }) => {
            assert_eq!(what, "payload size");
            assert_eq!(value, -1);
        }
        other => panic!("unexpected {other:?}"),
    }
    // a reserved serial type in the header
    let reserved = [0x03, 0x01, 0x02, 0x0a, 0x00];
    assert!(matches!(parse_leaf_cell(&reserved), Err(StorageError::ReservedSerialType(10))));
    // the body is cut off
    let short = [0x10, 0x01, 0x02, 0x04, 0x00];
    assert!(matches!(parse_leaf_cell(&short), Err(StorageError::Truncated { need: 4, have: 1 })));
    assert!(matches!(parse_leaf_cell(&[0x80]), Err(StorageError::TruncatedVarint)));
}

fn page_with(bytes: &[u8]) -> Vec<u8> {
    let mut page = vec![0u8; 512];
    page[..bytes.len()].copy_from_slice(bytes);
    page
}

#[test]
fn leaf_page_header() {
    let page = page_with(&[0x0d, 0, 0, 0, 2, 0, 0, 0, 0x01, 0x00, 0x01, 0x10]);
    let h = page_header(&page, 1).unwrap();
    assert_eq!(*h.page_type(), PageType::LeafTable);
    assert_eq!(h.cell_count(), 2);
    assert_eq!(h.cell_pointers(), &vec![256, 272]);
    assert_eq!(h.right_most_child(), None);
}

#[test]
fn interior_page_header() {
    let page = page_with(&[0x05, 0, 0, 0, 1, 0, 0, 0, 0, 0, 0, 7, 0x01, 0x80]);
    let h = page_header(&page, 3).unwrap();
    assert_eq!(*h.page_type(), PageType::InteriorTable);
    assert_eq!(h.cell_pointers(), &vec![0x180]);
    assert_eq!(h.right_most_child(), Some(7));
}

#[test]
fn first_page_header_follows_the_file_header() {
    let mut page = vec![0u8; 512];
    page[100] = 0x0d;
    page[104] = 1;
    page[108] = 0x01;
    page[109] = 0xf0;
    let h = page_header(&page, 0).unwrap();
    assert_eq!(h.cell_pointers(), &vec![0x1f0]);
}

#[test]
fn page_header_errors() {
    let page = page_with(&[0x03]);
    assert!(matches!(page_header(&page, 1), Err(StorageError::InvalidPageType(0x03))));
    assert!(matches!(
        page_header(&[0x0d, 0, 0], 1),
        Err(StorageError::Truncated { need: 5, have: 3 })
    ));
    assert!(matches!(
        page_header(&[0x0d, 0, 0, 0, 3, 0, 0, 0, 0, 0], 1),
        Err(StorageError::Truncated { need: 14, have: 10 })
    ));
    assert!(matches!(
        page_header(&[0x05, 0, 0, 0, 0, 0, 0, 0], 1),
        Err(StorageError::Truncated { need: 12, have: 8 })
    ));
    assert!(matches!(page_header(&[], 0), Err(StorageError::Truncated { need: 101, have: 0 })));
}

#[test]
fn page_header_new_checks_the_right_child() {
    assert!(matches!(
        PageHeader::new(PageType::LeafTable, 0, vec![], Some(3)),
        Err(StorageError::InvalidPageType(0x0d))
    ));
    assert!(matches!(
        PageHeader::new(PageType::InteriorIndex, 0, vec![], None),
        Err(StorageError::InvalidPageType(0x02))
    ));
    assert!(PageHeader::new(PageType::InteriorIndex, 0, vec![], Some(2)).is_ok());
}

#[test]
fn page_type_codes_round_trip() {
    for t in [PageType::InteriorIndex, PageType::InteriorTable, PageType::LeafIndex, PageType::LeafTable] {
        assert_eq!(PageType::try_from(t.code()).unwrap(), t);
    }
    assert!(PageType::LeafIndex.is_leaf());
    assert!(!PageType::InteriorTable.is_leaf());
}

#[test]
fn pages_and_the_database_header() {
    let mut db = vec![0u8; 3 * 512];
    db[16] = 0x02;
    db[17] = 0x00;
    db[512] = 0xaa;
    assert_eq!(page_size(&db).unwrap(), 512);
    assert_eq!(db_header(&db).unwrap().page_size(), 512);
    let p = read_page(&db, 512, 1).unwrap();
    assert_eq!(p.len(), 512);
    assert_eq!(p[0], 0xaa);
    assert_eq!(parse_first_page(&db).unwrap().len(), 512);
    assert!(matches!(
        read_page(&db, 512, 3),
        Err(StorageError::Read { offset: 1536, len: 512 })
    ));
    assert!(matches!(page_size(&db[..50]), Err(StorageError::Read { offset: 0, len: 100 })));
}
