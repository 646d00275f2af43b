use codecrafters_sqlite::btree::{column_eq, keep_row};
use codecrafters_sqlite::cli::Command;
use codecrafters_sqlite::error::{QueryError, StorageError};
use codecrafters_sqlite::parse::{parse_query, ParsedTokens, Projection, QuerySection};
use codecrafters_sqlite::plan::plan;
use codecrafters_sqlite::record::Column;
use codecrafters_sqlite::resolve::resolve_table_schemas;
use codecrafters_sqlite::schema::{
    between_parens, integer, parse, parse_index_sql, parse_table_sql, text, RecordType, SqliteSchema,
};
use codecrafters_sqlite::text::{
    chars_of, contains_chars, first_word_chars, split_chars, starts_with_chars, trim_chars,
};
use codecrafters_sqlite::tokenize::{tokenize, Ident, Keyword, StringLit, Symbol, Token};
use codecrafters_sqlite::parse::Condition;

fn parse_sql(sql: &str) -> Result<ParsedTokens, QueryError> {
    parse_query(tokenize(sql)?)
}

fn chars(s: &str) -> Vec<char> {
    s.chars().collect()
}

fn expected_of(r: Result<ParsedTokens, QueryError>) -> &'static str {
    match r {
        Err(QueryError::UnexpectedToken { expected, .. }) => expected,
        Err(QueryError::UnexpectedEnd { expected }) => expected,
        other => panic!("unexpected {other:?}"),
    }
}

#[test]
fn tokens_lower_case_identifiers_and_keep_literals() {
    let ts = tokenize("SELECT Name FROM Fruits WHERE Color = 'Dark Red'").unwrap();
    assert_eq!(
        ts,
        vec![
            Token::Keyword(Keyword::Select),
            Token::Ident(Ident::new("name")),
            Token::Keyword(Keyword::From),
            Token::Ident(Ident::new("fruits")),
            Token::Keyword(Keyword::Where),
            Token::Ident(Ident::new("color")),
            Token::Symbol(Symbol::Equal),
            Token::StringLit(StringLit("Dark Red".to_string())),
        ]
    );
    assert_eq!(
        tokenize("  count ( * ) ,x_1\t\n").unwrap(),
        vec![
            Token::Keyword(Keyword::Count),
            Token::Symbol(Symbol::LParen),
            Token::Symbol(Symbol::Star),
            Token::Symbol(Symbol::RParen),
            Token::Symbol(Symbol::Comma),
            Token::Ident(Ident::new("x_1")),
        ]
    );
    assert_eq!(tokenize("").unwrap(), vec![]);
    assert_eq!(tokenize("''").unwrap(), vec![Token::StringLit(StringLit(String::new()))]);
}

#[test]
fn tokenize_errors() {
    assert!(matches!(tokenize("a ; b"), Err(QueryError::UnexpectedChar { ch: ';', pos: 2 })));
    assert!(matches!(tokenize("1"), Err(QueryError::UnexpectedChar { ch: '1', pos: 0 })));
    assert!(matches!(tokenize("x 'abc"), Err(QueryError::UnterminatedString { pos: 2 })));
}

#[test]
fn idents_keywords_and_symbols() {
    assert_eq!(Ident::new("MixedCase").as_str(), "mixedcase");
    assert!(Ident::new("Ab").same(&Ident::new("aB")));
    assert_eq!(Ident::new("Ab"), Ident::new("ab"));
    assert_eq!(Keyword::try_from("sElEcT"), Ok(Keyword::Select));
    assert_eq!(Keyword::try_from("COUNT"), Ok(Keyword::Count));
    assert_eq!(Keyword::try_from("selects"), Err(()));
    assert_eq!(Keyword::Where.as_str(), "WHERE");
    assert_eq!(Symbol::try_from(','), Ok(Symbol::Comma));
    assert_eq!(Symbol::try_from('x'), Err(()));
    assert_eq!(Symbol::LParen.name(), "lef paren symbol");
    assert_eq!(StringLit("Keep Me".to_string()).into_inner(), "Keep Me");
    assert_eq!(Token::Keyword(Keyword::From).to_text(), "FROM");
    assert_eq!(Token::StringLit(StringLit("x".into())).to_text(), "'x'");
    assert_eq!(Token::Symbol(Symbol::Star).to_text(), "star symbol");
    assert_eq!(Token::Ident(Ident::new("col")).to_text(), "col");
    assert_eq!(Token::Ident(Ident::new("col")).duplicate(), Token::Ident(Ident::new("col")));
}

#[test]
fn parse_columns_count_and_conditions() {
    let p = parse_sql("select a, B from T where c = 'x' d = 'Y'").unwrap();
    match &p.projection {
        Projection::Columns(cols) => {
            let names: Vec<&str> = cols.iter().map(|c| c.as_str()).collect();
            assert_eq!(names, vec!["a", "b"]);
        }
        other => panic!("unexpected {other:?}"),
    }
    assert_eq!(p.table.as_str(), "t");
    assert_eq!(p.conditions.len(), 2);
    assert_eq!(p.conditions[0].column_name.as_str(), "c");
    assert_eq!(p.conditions[0]._symbol, Symbol::Equal);
    assert_eq!(p.conditions[0].exp_value, Column::Text("x".into()));
    assert_eq!(p.conditions[1].exp_value, Column::Text("Y".into()));
    let c = parse_sql("SELECT COUNT(*) FROM t").unwrap();
    assert!(matches!(c.projection, Projection::Count));
    assert!(c.conditions.is_empty());
}

#[test]
fn parse_errors_name_what_was_expected() {
    assert_eq!(expected_of(parse_sql("from t")), "SELECT");
    assert_eq!(expected_of(parse_sql("t")), "SELECT");
    assert_eq!(expected_of(parse_sql("select count(*), a from t")), "FROM");
    assert_eq!(expected_of(parse_sql("select a b from t")), "`,` or FROM");
    assert_eq!(expected_of(parse_sql("select a where t")), "FROM");
    assert_eq!(expected_of(parse_sql("select a from t t2")), "WHERE or end of query");
    assert_eq!(expected_of(parse_sql("select a from from")), "a table name");
    assert_eq!(expected_of(parse_sql("select a from t select")), "WHERE");
    assert_eq!(expected_of(parse_sql("select count(")), "`*` in COUNT(*)");
    assert_eq!(expected_of(parse_sql("select count")), "`(` after COUNT");
    assert_eq!(expected_of(parse_sql("select count(*")), "`)` after COUNT(*");
    assert_eq!(expected_of(parse_sql("select a from t where")), "a column name");
    assert_eq!(expected_of(parse_sql("select a from t where 'c'")), "a column name");
    assert_eq!(expected_of(parse_sql("select a from t where c 'x'")), "`=`");
    assert_eq!(expected_of(parse_sql("select a from t where c =")), "a string literal");
    assert_eq!(expected_of(parse_sql("select a from t where c = d")), "a string literal");
    assert_eq!(expected_of(parse_sql("select")), "a column name or COUNT(*)");
    assert_eq!(expected_of(parse_sql("")), "a column name or COUNT(*)");
    assert_eq!(expected_of(parse_sql("select a")), "FROM <table>");
    assert_eq!(expected_of(parse_sql("select ,")), "a column name or COUNT(*)");
}

#[test]
fn query_sections_advance_in_order() {
    assert_eq!(QuerySection::default(), QuerySection::Unstarted);
    assert_eq!(QuerySection::Unstarted.advance(Keyword::Select).unwrap(), QuerySection::Select);
    assert_eq!(QuerySection::Select.advance(Keyword::From).unwrap(), QuerySection::From);
    assert_eq!(QuerySection::From.advance(Keyword::Where).unwrap(), QuerySection::Where);
    assert!(matches!(
        QuerySection::Where.advance(Keyword::Select),
        Err(QueryError::UnexpectedToken { expected: "end of query", .. })
    ));
    assert!(matches!(
        QuerySection::Select.advance(Keyword::Where),
        Err(QueryError::UnexpectedToken { expected: "FROM", found: Token::Keyword(Keyword::Where) })
    ));
    assert_eq!(QuerySection::From.name(), "From");
    assert_eq!(Command::DbInfo.name(), "DbInfo");
}

fn schema_row(ty: &str, tbl: &str, root: i64, sql: &str) -> Vec<Column> {
    vec![
        Column::Text(ty.into()),
        Column::Text("name".into()),
        Column::Text(tbl.into()),
        Column::Int(root),
        Column::Text(sql.into()),
    ]
}

#[test]
fn schema_sql_parsing() {
    assert_eq!(between_parens(&chars("create table t (a, b)")).unwrap(), chars("a, b"));
    match between_parens(&chars("create table t")) {
        Err(StorageError::UnsupportedSchemaSql { reason, sql }) => {
            assert_eq!(reason, "missing `(`");
            assert_eq!(sql, "create table t");
        }
        other => panic!("unexpected {other:?}"),
    }
    assert!(matches!(
        between_parens(&chars("create table t (")),
        Err(StorageError::UnsupportedSchemaSql { reason: "missing `)`", .. })
    ));
    assert!(matches!(
        between_parens(&chars("x ) (")),
        Err(StorageError::UnsupportedSchemaSql { reason: "`)` before `(`", .. })
    ));
    match parse_table_sql(&chars("create table t ( Id integer primary key ,name text, id2 int)")).unwrap() {
        RecordType::Table { parsed_columns, rowid_alias } => {
            let names: Vec<&str> = parsed_columns.iter().map(|c| c.as_str()).collect();
            assert_eq!(names, vec!["id", "name", "id2"]);
            assert_eq!(rowid_alias, Some(0));
        }
        other => panic!("unexpected {other:?}"),
    }
    assert!(matches!(
        parse_table_sql(&chars("create table t (a, , b)")),
        Err(StorageError::UnsupportedSchemaSql { reason: "empty column definition", .. })
    ));
    match parse_index_sql(&chars("create index i on t ( Color )")).unwrap() {
        RecordType::Index { col_name } => assert_eq!(col_name.as_str(), "color"),
        other => panic!("unexpected {other:?}"),
    }
}

#[test]
fn schema_rows() {
    let s = parse(schema_row("table", "Fruits", 2, "CREATE TABLE fruits (a text)")).unwrap();
    assert_eq!(s.tbl_name().as_str(), "fruits");
    assert_eq!(s.rootpage_index().unwrap(), 1);
    assert!(matches!(parse(vec![Column::Null]), Err(StorageError::SchemaRowLen(1))));
    let mut bad = schema_row("table", "t", 2, "create table t (a)");
    bad[2] = Column::Int(3);
    match parse(bad) {
        Err(StorageError::SchemaColumnType { index, expected, found }) => {
            assert_eq!((index, expected, found), (2, "Text", Column::Int(3)));
        }
        other => panic!("unexpected {other:?}"),
    }
    let mut bad_root = schema_row("table", "t", 2, "create table t (a)");
    bad_root[3] = Column::Text("2".into());
    assert!(matches!(
        parse(bad_root),
        Err(StorageError::SchemaColumnType { index: 3, expected: "Int", .. })
    ));
    match parse(schema_row("view", "t", 0, "create view v as select 1")) {
        Err(StorageError::UnknownObjectType(t)) => assert_eq!(t, "view"),
        other => panic!("unexpected {other:?}"),
    }
    match parse(schema_row("table", "t", 2, "CREATE INDEX i ON t (a)")) {
        Err(StorageError::UnsupportedSchemaSql { reason, sql }) => {
            assert_eq!(reason, "does not start with CREATE <type>");
            assert_eq!(sql, "create index i on t (a)");
        }
        other => panic!("unexpected {other:?}"),
    }
    let zero = parse(schema_row("table", "t", 0, "create table t (a)")).unwrap();
    assert!(matches!(
        zero.rootpage_index(),
        Err(StorageError::OutOfRange { what: "root page number", value: -1 })
    ));
    assert_eq!(text(4, Column::Text("x".into())).unwrap(), "x");
    assert_eq!(integer(3, Column::Int(9)).unwrap(), 9);
}

fn schemas() -> Vec<SqliteSchema> {
    vec![
        parse(schema_row("table", "a", 2, "create table a (x, y)")).unwrap(),
        parse(schema_row("index", "a", 3, "create index ai on a (y)")).unwrap(),
        parse(schema_row("table", "b", 4, "create table b (z)")).unwrap(),
        parse(schema_row("table", "b", 5, "create table b (w)")).unwrap(),
    ]
}

#[test]
fn resolving_tables() {
    let all = schemas();
    let t = resolve_table_schemas(&all, &Ident::new("a")).unwrap();
    assert_eq!(t.table.tbl_name().as_str(), "a");
    assert_eq!(t.indexes.len(), 1);
    match resolve_table_schemas(&all, &Ident::new("b")) {
        Err(QueryError::Storage(StorageError::DuplicateTable(n))) => assert_eq!(n.as_str(), "b"),
        Err(e) => panic!("unexpected {e:?}"),
        Ok(_) => panic!("expected an error"),
    }
    assert!(matches!(
        resolve_table_schemas(&all, &Ident::new("c")),
        Err(QueryError::NoSuchTable(_))
    ));
}

#[test]
fn planning_splits_conditions() {
    let all = schemas();
    let t = resolve_table_schemas(&all, &Ident::new("a")).unwrap();
    let cols = match t.table.ty() {
        RecordType::Table { parsed_columns, .. } => parsed_columns,
        _ => panic!("a table"),
    };
    let conds = vec![
        Condition::new(Ident::new("y"), Symbol::Equal, Column::Text("1".into())),
        Condition::new(Ident::new("x"), Symbol::Equal, Column::Text("2".into())),
    ];
    let p = plan(conds, cols, &t).unwrap();
    assert_eq!(p.indexed, vec![(1, Column::Text("1".into()))]);
    assert_eq!(p.normal, vec![(0, Column::Text("2".into()))]);
    let bad = vec![Condition::new(Ident::new("q"), Symbol::Equal, Column::Text("1".into()))];
    assert!(matches!(plan(bad, cols, &t), Err(QueryError::NoSuchColumn(_))));
}

#[test]
fn column_equality() {
    let nan = f64::NAN.to_bits();
    assert!(!column_eq(&Column::Float(nan), &Column::Float(nan)));
    assert!(column_eq(&Column::Float(0.0f64.to_bits()), &Column::Float((-0.0f64).to_bits())));
    assert!(column_eq(&Column::Float(1.5f64.to_bits()), &Column::Float(1.5f64.to_bits())));
    assert!(!column_eq(&Column::Int(1), &Column::Text("1".into())));
    assert!(column_eq(&Column::Blob(vec![1]), &Column::Blob(vec![1])));
    assert!(column_eq(&Column::Null, &Column::Null));
    let row = vec![Column::Int(1), Column::Text("a".into())];
    assert!(keep_row(&row, &vec![(1, Column::Text("a".into()))]));
    assert!(!keep_row(&row, &vec![(1, Column::Text("b".into()))]));
    assert!(!keep_row(&row, &vec![(5, Column::Null)]));
    assert!(keep_row(&row, &vec![]));
}

#[test]
fn text_helpers() {
    assert_eq!(chars_of("héllo"), chars("héllo"));
    assert_eq!(trim_chars(&chars("  a b \t")), chars("a b"));
    assert_eq!(trim_chars(&chars("   ")), chars(""));
    assert_eq!(first_word_chars(&chars("  id integer")), Some(chars("id")));
    assert_eq!(first_word_chars(&chars("  ")), None);
    assert_eq!(split_chars(&chars("a,,b"), ','), vec![chars("a"), chars(""), chars("b")]);
    assert_eq!(split_chars(&chars(""), ','), vec![chars("")]);
    assert!(contains_chars(&chars("x integer primary key"), &chars("primary")));
    assert!(!contains_chars(&chars("x int"), &chars("integer")));
    assert!(starts_with_chars(&chars("create table"), &chars("create ")));
    assert!(!starts_with_chars(&chars("create"), &chars("create table")));
}

#[test]
fn collapsing_white_space_keeps_the_tokens() {
    let spread = tokenize("  select \t name,\n  color   from fruits   where  color = 'dark  red'   ").unwrap();
    let tight = tokenize("select name, color from fruits where color = 'dark  red'").unwrap();
    assert_eq!(spread, tight);
    assert!(tokenize("  select # from t").is_err());
    assert!(tokenize("select # from t").is_err());
    assert!(tokenize("select 'open   ").is_err());
}
