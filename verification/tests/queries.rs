use codecrafters_sqlite::btree::{walk, walk_index, TableLeafCell};
use codecrafters_sqlite::dbinfo;
use codecrafters_sqlite::error::{QueryError, StorageError};
use codecrafters_sqlite::fmt::{decimal_string, render_rows};
use codecrafters_sqlite::page::parse_first_page;
use codecrafters_sqlite::record::Column;
use codecrafters_sqlite::schema::{parse_sqlite_schemas, RecordType};
use codecrafters_sqlite::sql_query::{prepare, query_string, run, runnable, QueryOutput};
use codecrafters_sqlite::tokenize::Ident;
use codecrafters_sqlite::tables;

const PS: usize = 512;

fn table_type(rowid_alias: Option<usize>) -> RecordType {
    RecordType::Table {
        parsed_columns: vec![Ident::new("id"), Ident::new("name"), Ident::new("color")],
        rowid_alias,
    }
}

fn index_type() -> RecordType {
    RecordType::Index { col_name: Ident::new("color") }
}

enum Val<'a> {
    Null,
    Int(i8),
    Text(&'a str),
}

fn varint_bytes(v: usize) -> Vec<u8> {
    assert!(v < 16384);
    if v < 128 {
        vec![v as u8]
    } else {
        vec![0x80 | (v >> 7) as u8, (v & 0x7f) as u8]
    }
}

fn record(values: &[Val]) -> Vec<u8> {
    let mut types = Vec::new();
    let mut body = Vec::new();
    for v in values {
        match v {
            Val::Null => types.extend(varint_bytes(0)),
            Val::Int(i) => {
                types.extend(varint_bytes(1));
                body.push(*i as u8);
            }
            Val::Text(s) => {
                types.extend(varint_bytes(13 + 2 * s.len()));
                body.extend_from_slice(s.as_bytes());
            }
        }
    }
    let mut out = varint_bytes(types.len() + 1);
    out.extend(types);
    out.extend(body);
    out
}

fn leaf_cell(rowid: usize, values: &[Val]) -> Vec<u8> {
    let rec = record(values);
    let mut out = varint_bytes(rec.len());
    out.extend(varint_bytes(rowid));
    out.extend(rec);
    out
}

/// A leaf page (`kind` 0x0d or 0x0a) holding `cells`, its header at `start`.
fn leaf_page(kind: u8, start: usize, cells: &[Vec<u8>], page: &mut [u8]) {
    page[start] = kind;
    page[start + 3] = 0;
    page[start + 4] = cells.len() as u8;
    let mut end = PS;
    for (i, c) in cells.iter().enumerate() {
        end -= c.len();
        page[end..end + c.len()].copy_from_slice(c);
        let p = start + 8 + 2 * i;
        page[p] = (end >> 8) as u8;
        page[p + 1] = (end & 0xff) as u8;
    }
}

fn interior_page(kind: u8, children: &[(u32, usize)], right: u32, page: &mut [u8]) {
    page[0] = kind;
    page[4] = children.len() as u8;
    page[8..12].copy_from_slice(&right.to_be_bytes());
    let mut end = PS;
    for (i, (child, key)) in children.iter().enumerate() {
        let mut cell = child.to_be_bytes().to_vec();
        cell.extend(varint_bytes(*key));
        end -= cell.len();
        page[end..end + cell.len()].copy_from_slice(&cell);
        page[12 + 2 * i] = (end >> 8) as u8;
        page[12 + 2 * i + 1] = (end & 0xff) as u8;
    }
}

/// A database of four pages: the schema, an interior page over the rows,
/// and two leaves holding three fruits; with an index on `color` if asked.
fn fruit_db(with_index: bool) -> Vec<u8> {
    let mut db = vec![0u8; 5 * PS];
    db[..16].copy_from_slice(b"SQLite format 3\0");
    db[16] = 0x02;
    db[17] = 0x00;
    let mut schema = vec![leaf_cell(
        1,
        &[
            Val::Text("table"),
            Val::Text("fruits"),
            Val::Text("fruits"),
            Val::Int(2),
            Val::Text("CREATE TABLE fruits (id integer primary key, name text, color text)"),
        ],
    )];
    if with_index {
        schema.push(leaf_cell(
            2,
            &[
                Val::Text("index"),
                Val::Text("idx_color"),
                Val::Text("fruits"),
                Val::Int(5),
                Val::Text("CREATE INDEX idx_color ON fruits (color)"),
            ],
        ));
    }
    leaf_page(0x0d, 100, &schema, &mut db[..PS]);
    interior_page(0x05, &[(3, 2)], 4, &mut db[PS..2 * PS]);
    leaf_page(
        0x0d,
        0,
        &[
            leaf_cell(1, &[Val::Null, Val::Text("apple"), Val::Text("red")]),
            leaf_cell(2, &[Val::Null, Val::Text("banana"), Val::Text("yellow")]),
        ],
        &mut db[2 * PS..3 * PS],
    );
    leaf_page(
        0x0d,
        0,
        &[leaf_cell(3, &[Val::Null, Val::Text("cherry"), Val::Text("red")])],
        &mut db[3 * PS..4 * PS],
    );
    leaf_page(
        0x0a,
        0,
        &[leaf_cell(1, &[Val::Text("red"), Val::Int(1)])],
        &mut db[4 * PS..5 * PS],
    );
    db
}

fn words(q: &str) -> Vec<String> {
    q.split(' ').map(|w| w.to_string()).collect()
}

fn texts(rows: &[Vec<Column>]) -> Vec<Vec<String>> {
    rows.iter()
        .map(|r| r.iter().map(|c| c.display_text().expect("no floats here")).collect())
        .collect()
}

#[test]
fn dbinfo_counts_schema_rows() {
    let db = fruit_db(true);
    let first = parse_first_page(&db).unwrap();
    assert_eq!(dbinfo::run(&first).unwrap(), "number of tables: 2");
}

#[test]
fn tables_lists_table_names() {
    let db = fruit_db(true);
    let first = parse_first_page(&db).unwrap();
    let schemas = parse_sqlite_schemas(&first).unwrap();
    assert_eq!(schemas.len(), 2);
    assert_eq!(tables::run(&schemas), "fruits fruits");
    assert_eq!(schemas[0].ty().kind_name(), "table");
    assert_eq!(schemas[1].ty().kind_name(), "index");
    match schemas[0].ty() {
        RecordType::Table { parsed_columns, rowid_alias } => {
            let names: Vec<&str> = parsed_columns.iter().map(|c| c.as_str()).collect();
            assert_eq!(names, vec!["id", "name", "color"]);
            assert_eq!(*rowid_alias, Some(0));
        }
        other => panic!("unexpected {other:?}"),
    }
    assert_eq!(schemas[0].rootpage_index().unwrap(), 1);
}

#[test]
fn count_star_counts_all_rows() {
    let db = fruit_db(false);
    let schemas = parse_sqlite_schemas(&parse_first_page(&db).unwrap()).unwrap();
    let out = run(&db, &schemas, 512, &words("SELECT COUNT(*) FROM fruits")).unwrap();
    assert!(matches!(out, QueryOutput::Count(3)));
}

#[test]
fn select_walks_the_whole_tree_in_rowid_order() {
    let db = fruit_db(false);
    let schemas = parse_sqlite_schemas(&parse_first_page(&db).unwrap()).unwrap();
    match run(&db, &schemas, 512, &words("select id, name from fruits")).unwrap() {
        QueryOutput::Rows(rows) => {
            let t = texts(&rows);
            assert_eq!(render_rows(&t), "1|apple\n2|banana\n3|cherry");
        }
        other => panic!("unexpected {other:?}"),
    }
}

#[test]
fn where_keeps_matching_rows_only() {
    let db = fruit_db(false);
    let schemas = parse_sqlite_schemas(&parse_first_page(&db).unwrap()).unwrap();
    match run(&db, &schemas, 512, &words("select name from fruits where color = 'red'")).unwrap() {
        QueryOutput::Rows(rows) => {
            assert_eq!(texts(&rows), vec![vec!["apple".to_string()], vec!["cherry".to_string()]]);
        }
        other => panic!("unexpected {other:?}"),
    }
    match run(&db, &schemas, 512, &words("select count(*) from fruits where color = 'blue'")).unwrap() {
        QueryOutput::Count(n) => assert_eq!(n, 0),
        other => panic!("unexpected {other:?}"),
    }
}

#[test]
fn conditions_on_indexed_columns_are_flagged() {
    let db = fruit_db(true);
    let schemas = parse_sqlite_schemas(&parse_first_page(&db).unwrap()).unwrap();
    assert!(!runnable(&db, &schemas, 512, &words("select name from fruits where color = 'red'")));
    assert!(runnable(&db, &schemas, 512, &words("select name from fruits where name = 'banana'")));
    assert!(runnable(&db, &schemas, 512, &words("select name from nowhere where color = 'red'")));
    let p = prepare(&schemas, &words("select name from fruits where color = 'red' name = 'apple'")).unwrap();
    assert_eq!(p.plan.indexed.len(), 1);
    assert_eq!(p.plan.normal.len(), 1);
    assert_eq!(p.plan.indexed[0].0, 2);
    assert_eq!(p.plan.normal[0].0, 1);
    match run(&db, &schemas, 512, &words("select color from fruits where name = 'banana'")).unwrap() {
        QueryOutput::Rows(rows) => assert_eq!(texts(&rows), vec![vec!["yellow".to_string()]]),
        other => panic!("unexpected {other:?}"),
    }
}

#[test]
fn query_errors() {
    let db = fruit_db(false);
    let schemas = parse_sqlite_schemas(&parse_first_page(&db).unwrap()).unwrap();
    match run(&db, &schemas, 512, &words("select name from apples")) {
        Err(QueryError::NoSuchTable(t)) => assert_eq!(t.as_str(), "apples"),
        other => panic!("unexpected {other:?}"),
    }
    match run(&db, &schemas, 512, &words("select weight from fruits")) {
        Err(QueryError::NoSuchColumn(c)) => assert_eq!(c.as_str(), "weight"),
        other => panic!("unexpected {other:?}"),
    }
    match run(&db, &schemas, 512, &words("select name from fruits where size = 'big'")) {
        Err(QueryError::NoSuchColumn(c)) => assert_eq!(c.as_str(), "size"),
        other => panic!("unexpected {other:?}"),
    }
    assert!(matches!(
        run(&db, &schemas, 512, &words("select # from fruits")),
        Err(QueryError::UnexpectedChar { ch: '#', pos: 7 })
    ));
}

#[test]
fn query_words_join_with_spaces() {
    assert_eq!(query_string(&words("select a from t")), "select a from t");
    assert_eq!(query_string(&[]), "");
}

#[test]
fn a_cyclic_tree_is_refused() {
    let mut db = fruit_db(false);
    // the interior page's right-most child now points back at itself
    db[PS + 8..PS + 12].copy_from_slice(&2u32.to_be_bytes());
    let mut cells: Vec<TableLeafCell> = Vec::new();
    assert!(matches!(
        walk(&db, 512, 1, &table_type(Some(0)), &vec![], &mut cells),
        Err(QueryError::Storage(StorageError::TooDeep { .. }))
    ));
}

#[test]
fn walk_fills_in_the_rowid_alias() {
    let db = fruit_db(false);
    let mut cells: Vec<TableLeafCell> = Vec::new();
    walk(&db, 512, 1, &table_type(Some(0)), &vec![(2, Column::Text("red".into()))], &mut cells).unwrap();
    assert_eq!(cells.len(), 2);
    assert_eq!(cells[0].record.values[0], Column::Int(1));
    assert_eq!(cells[1].record.values[0], Column::Int(3));
    let mut all: Vec<TableLeafCell> = Vec::new();
    walk(&db, 512, 1, &table_type(None), &vec![], &mut all).unwrap();
    assert_eq!(all.len(), 3);
    assert_eq!(all[2].record.values[0], Column::Null);
}

#[test]
fn walk_errors() {
    let db = fruit_db(true);
    let mut cells: Vec<TableLeafCell> = Vec::new();
    // an index page where a table page is expected
    assert!(matches!(
        walk(&db, 512, 4, &table_type(None), &vec![], &mut cells),
        Err(QueryError::Storage(StorageError::InvalidPageType(0x0a)))
    ));
    // a page beyond the end of the file
    assert!(matches!(
        walk(&db, 512, 9, &table_type(None), &vec![], &mut cells),
        Err(QueryError::Storage(StorageError::Read { offset: 4608, len: 512 }))
    ));
    let mut zero = fruit_db(false);
    zero[PS + 8..PS + 12].copy_from_slice(&0u32.to_be_bytes());
    match walk(&zero, 512, 1, &table_type(None), &vec![], &mut cells) {
        Err(QueryError::Storage(StorageError::OutOfRange { what, value })) => {
            assert_eq!(what, "child page number");
            assert_eq!(value, 0);
        }
        other => panic!("unexpected {other:?}"),
    }
}

#[test]
fn a_walk_refuses_the_other_kind_of_schema() {
    let db = fruit_db(true);
    let mut cells: Vec<TableLeafCell> = Vec::new();
    walk(&db, 512, 1, &table_type(None), &vec![], &mut cells).unwrap();
    assert_eq!(cells.len(), 3);
    match walk(&db, 512, 1, &index_type(), &vec![], &mut cells) {
        Err(QueryError::WrongRecordType { expected, actual }) => {
            assert_eq!(expected, "Table");
            assert_eq!(actual, "index");
        }
        other => panic!("unexpected {other:?}"),
    }
    assert_eq!(cells.len(), 3);
    match walk_index(&db, 512, 4, &table_type(None), &mut cells) {
        Err(QueryError::WrongRecordType { expected, actual }) => {
            assert_eq!(expected, "Index");
            assert_eq!(actual, "table");
        }
        other => panic!("unexpected {other:?}"),
    }
    assert_eq!(cells.len(), 3);
    // the root page is read before the schema is looked at
    assert!(matches!(
        walk(&db, 512, 9, &index_type(), &vec![], &mut cells),
        Err(QueryError::Storage(StorageError::Read { .. }))
    ));
}

#[test]
fn a_failed_walk_keeps_the_cells_already_collected() {
    let db = fruit_db(false);
    let mut cells: Vec<TableLeafCell> = Vec::new();
    walk(&db, 512, 1, &table_type(None), &vec![], &mut cells).unwrap();
    assert_eq!(cells.len(), 3);
    assert!(walk(&db, 512, 9, &table_type(None), &vec![], &mut cells).is_err());
    assert_eq!(cells.len(), 3);
    // the right-most child now lies beyond the end of the file: the rows of
    // the first leaf are appended before the walk fails
    let mut broken = db.clone();
    broken[PS + 8..PS + 12].copy_from_slice(&9u32.to_be_bytes());
    assert!(matches!(
        walk(&broken, 512, 1, &table_type(None), &vec![], &mut cells),
        Err(QueryError::Storage(StorageError::Read { .. }))
    ));
    let rowids: Vec<i64> = cells.iter().map(|c| c.rowid).collect();
    assert_eq!(rowids, vec![1, 2, 3, 1, 2]);
}

#[test]
fn walk_index_reads_index_leaves() {
    let db = fruit_db(true);
    let mut cells: Vec<TableLeafCell> = Vec::new();
    walk_index(&db, 512, 4, &index_type(), &mut cells).unwrap();
    assert_eq!(cells.len(), 1);
    assert_eq!(cells[0].record.values, vec![Column::Text("red".into()), Column::Int(1)]);
    let mut none: Vec<TableLeafCell> = Vec::new();
    assert!(matches!(
        walk_index(&db, 512, 2, &index_type(), &mut none),
        Err(QueryError::Storage(StorageError::InvalidPageType(0x0d)))
    ));
}

#[test]
fn decimal_rendering() {
    assert_eq!(decimal_string(0), "0");
    assert_eq!(decimal_string(1234567890), "1234567890");
    assert_eq!(decimal_string(u64::MAX), "18446744073709551615");
    assert_eq!(Column::Int(-42).display_text().unwrap(), "-42");
    assert_eq!(Column::Int(i64::MIN).display_text().unwrap(), "-9223372036854775808");
    assert_eq!(Column::Null.display_text().unwrap(), "NULL");
    assert_eq!(Column::Blob(vec![1, 2, 3]).display_text().unwrap(), "<blob 3 bytes>");
    assert_eq!(Column::Text("hi".into()).display_text().unwrap(), "hi");
    assert!(Column::Float(0).display_text().is_none());
    assert_eq!(render_rows(&vec![]), "");
    assert_eq!(
        render_rows(&vec![vec!["a".into(), "b".into()], vec!["c".into(), "".into()]]),
        "a|b\nc|"
    );
}

#[test]
fn count_agrees_with_the_rows_listed() {
    let db = fruit_db(false);
    let schemas = parse_sqlite_schemas(&parse_first_page(&db).unwrap()).unwrap();
    let n = match run(&db, &schemas, 512, &words("select count(*) from fruits where color = 'red'")).unwrap() {
        QueryOutput::Count(n) => n,
        other => panic!("unexpected {other:?}"),
    };
    let rows = match run(&db, &schemas, 512, &words("select name, id from fruits where color = 'red'")).unwrap() {
        QueryOutput::Rows(rows) => rows,
        other => panic!("unexpected {other:?}"),
    };
    assert_eq!(n, 2);
    assert_eq!(rows.len(), n);
}
