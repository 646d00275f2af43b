use codecrafters_sqlite::common::varint;
use codecrafters_sqlite::error::QueryError;
use codecrafters_sqlite::parse::{parse_query, ParsedTokens};
use codecrafters_sqlite::record::{Column, SerialType};
use codecrafters_sqlite::tokenize::{tokenize, Keyword, Token};

fn parse(sql: &str) -> Result<ParsedTokens, QueryError> {
    parse_query(tokenize(sql)?)
}

fn check_column_parse() {
    assert_eq!(
        Column::parse(&[0xff], SerialType::I8).unwrap(),
        (Column::Int(-1), 1)
    );
    assert_eq!(
        Column::parse(&[0x01, 0x00], SerialType::I16).unwrap(),
        (Column::Int(256), 2)
    );
    assert_eq!(
        Column::parse(&[0x7f], SerialType::I8).unwrap(),
        (Column::Int(127), 1)
    );
    assert_eq!(
        Column::parse(b"tablexyz", SerialType::Text(5)).unwrap(),
        (Column::Text("table".into()), 5)
    );
    assert_eq!(
        Column::parse(&[], SerialType::Zero).unwrap(),
        (Column::Int(0), 0)
    );
    assert!(Column::parse(&[0x00], SerialType::I32).is_err());
}

fn check_varint_spec_examples() {
    assert_eq!(varint(&[0x2a]).unwrap(), (42, 1));
    assert_eq!(varint(&[0xb3, 0x33]).unwrap(), (6579, 2));
    assert_eq!(varint(&[0x81, 0xbf, 0x81, 0x3f]).unwrap(), (3129535, 4));
    // trailing bytes ignored, only consumed count matters
    assert_eq!(varint(&[0x78, 0x03, 0x07]).unwrap(), (120, 1));
    assert!(varint(&[0x80]).is_err());
}

fn check_serial_type_matches_spec_example() {
    // From the sample.db "oranges" cell: 17 1b 1b 01 81 47
    assert_eq!(SerialType::try_from(23u64).unwrap(), SerialType::Text(5));
    assert_eq!(SerialType::try_from(27u64).unwrap(), SerialType::Text(7));
    assert_eq!(SerialType::try_from(1u64).unwrap().size(), 1);
    assert_eq!(SerialType::try_from(199u64).unwrap(), SerialType::Text(93));
    assert_eq!(SerialType::try_from(12u64).unwrap(), SerialType::Blob(0));
    assert!(SerialType::try_from(10u64).is_err());
}

#[test]
fn helpers_column_parse() {
    check_column_parse();
}

#[test]
fn record_column_parse() {
    check_column_parse();
}

#[test]
fn helpers_varint_spec_examples() {
    check_varint_spec_examples();
}

#[test]
fn common_varint_spec_examples() {
    assert_eq!(varint(&[0x2a]).unwrap(), (42, 1));
    assert_eq!(varint(&[0xb3, 0x33]).unwrap(), (6579, 2));
    assert_eq!(varint(&[0x81, 0xbf, 0x81, 0x3f]).unwrap(), (3_129_535, 4));
    // trailing bytes ignored, only consumed count matters
    assert_eq!(varint(&[0x78, 0x03, 0x07]).unwrap(), (120, 1));
    assert!(varint(&[0x80]).is_err());
}

#[test]
fn helpers_serial_type_matches_spec_example() {
    check_serial_type_matches_spec_example();
}

#[test]
fn record_serial_type_matches_spec_example() {
    check_serial_type_matches_spec_example();
}

#[test]
fn errors_name_what_was_expected() {
    assert!(matches!(
        parse("select from t"),
        Err(QueryError::UnexpectedToken {
            found: Token::Keyword(Keyword::From),
            ..
        })
    ));
    assert!(matches!(
        parse("select a, from t"),
        Err(QueryError::UnexpectedToken {
            expected: "a column name",
            ..
        })
    ));
    assert!(matches!(
        parse("select a from"),
        Err(QueryError::UnexpectedEnd { .. })
    ));
    assert!(matches!(
        parse("select a from t where c = 'x"),
        Err(QueryError::UnterminatedString { pos: 26 })
    ));
    assert!(parse("select a, b from t where c = 'x'").is_ok());
    assert!(parse("select count(*) from t").is_ok());
}
