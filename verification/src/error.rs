//! Errors are split by who is at fault, not by which module raised them.
//!
//! - [`StorageError`]: the bytes aren't a database we understand.
//! - [`QueryError`]: the SQL text is wrong, or names something that doesn't exist.

use vstd::prelude::*;
use crate::record::{Column, ColumnView};
use crate::tokenize::{Ident, Token, TokenView};

verus! {

/// The database bytes are not something this library can read.
#[derive(Debug)]
pub enum StorageError {
    /// Not a SQLite 3 database (bad header magic).
    NotADatabase,
    /// `len` bytes at `offset` lie (partly) beyond the end of the database.
    Read { offset: u64, len: usize },
    /// A b-tree page header names a page type that does not exist.
    InvalidPageType(u8),
    /// A value needs `need` bytes, only `have` are available.
    Truncated { need: usize, have: usize },
    /// A varint runs past the end of its buffer.
    TruncatedVarint,
    /// A record header holds one of the reserved serial types 10 and 11.
    ReservedSerialType(u64),
    /// A record body overruns its cell.
    RecordOverrun,
    /// A record has `len` columns, column `column` was requested.
    RecordTooShort { column: usize, len: usize },
    /// A text column is not valid UTF-8.
    InvalidUtf8,
    /// A number read from the file is out of the range it must lie in.
    OutOfRange { what: &'static str, value: i64 },
    /// A b-tree descends deeper than the database has pages: its child
    /// pointers form a cycle.
    TooDeep { page: usize },
    /// A `sqlite_schema` row has this many columns, not 5.
    SchemaRowLen(usize),
    /// A `sqlite_schema` column holds a value of the wrong kind.
    SchemaColumnType { index: usize, expected: &'static str, found: Column },
    /// A `sqlite_schema` row describes an object that is neither a table nor an index.
    UnknownObjectType(String),
    /// The `CREATE` statement of a schema row is not one this reader understands.
    UnsupportedSchemaSql { reason: &'static str, sql: String },
    /// A table is defined more than once in `sqlite_schema`.
    DuplicateTable(Ident),
}

/// A [`StorageError`], its texts as characters.
pub enum StorageErrorView {
    NotADatabase,
    Read { offset: u64, len: usize },
    InvalidPageType(u8),
    Truncated { need: usize, have: usize },
    TruncatedVarint,
    ReservedSerialType(u64),
    RecordOverrun,
    RecordTooShort { column: usize, len: usize },
    InvalidUtf8,
    OutOfRange { what: Seq<char>, value: i64 },
    TooDeep { page: usize },
    SchemaRowLen(usize),
    SchemaColumnType { index: usize, expected: Seq<char>, found: ColumnView },
    UnknownObjectType(Seq<char>),
    UnsupportedSchemaSql { reason: Seq<char>, sql: Seq<char> },
    DuplicateTable(Seq<char>),
}

impl View for StorageError {
    type V = StorageErrorView;

    open spec fn view(&self) -> StorageErrorView {
        match self {
            StorageError::NotADatabase => StorageErrorView::NotADatabase,
            StorageError::Read { offset, len } => StorageErrorView::Read { offset: *offset, len: *len },
            StorageError::InvalidPageType(b) => StorageErrorView::InvalidPageType(*b),
            StorageError::Truncated { need, have } => StorageErrorView::Truncated { need: *need, have: *have },
            StorageError::TruncatedVarint => StorageErrorView::TruncatedVarint,
            StorageError::ReservedSerialType(c) => StorageErrorView::ReservedSerialType(*c),
            StorageError::RecordOverrun => StorageErrorView::RecordOverrun,
            StorageError::RecordTooShort { column, len } => StorageErrorView::RecordTooShort { column: *column, len: *len },
            StorageError::InvalidUtf8 => StorageErrorView::InvalidUtf8,
            StorageError::OutOfRange { what, value } => StorageErrorView::OutOfRange { what: what@, value: *value },
            StorageError::TooDeep { page } => StorageErrorView::TooDeep { page: *page },
            StorageError::SchemaRowLen(n) => StorageErrorView::SchemaRowLen(*n),
            StorageError::SchemaColumnType { index, expected, found } => StorageErrorView::SchemaColumnType {
                index: *index,
                expected: expected@,
                found: found@,
            },
            StorageError::UnknownObjectType(s) => StorageErrorView::UnknownObjectType(s@),
            StorageError::UnsupportedSchemaSql { reason, sql } => StorageErrorView::UnsupportedSchemaSql {
                reason: reason@,
                sql: sql@,
            },
            StorageError::DuplicateTable(t) => StorageErrorView::DuplicateTable(t@),
        }
    }
}

/// The SQL text is wrong, or names something that doesn't exist.
#[derive(Debug)]
pub enum QueryError {
    /// A character that starts no token, at character position `pos`.
    UnexpectedChar { ch: char, pos: usize },
    /// A string literal that starts at character position `pos` has no closing quote.
    UnterminatedString { pos: usize },
    /// The parser expected `expected` and found the token `found`.
    UnexpectedToken { expected: &'static str, found: Token },
    /// The parser expected `expected` and found the end of the query.
    UnexpectedEnd { expected: &'static str },
    /// No table of this name.
    NoSuchTable(Ident),
    /// No column of this name.
    NoSuchColumn(Ident),
    /// A b-tree walk was given the schema of the other kind of object: it
    /// expected `expected`, the schema describes an `actual`.
    WrongRecordType { expected: &'static str, actual: &'static str },
    /// The database could not be read.
    Storage(StorageError),
}

/// A [`QueryError`], its texts as characters.
pub enum QueryErrorView {
    UnexpectedChar { ch: char, pos: usize },
    UnterminatedString { pos: usize },
    UnexpectedToken { expected: Seq<char>, found: TokenView },
    UnexpectedEnd { expected: Seq<char> },
    NoSuchTable(Seq<char>),
    NoSuchColumn(Seq<char>),
    WrongRecordType { expected: Seq<char>, actual: Seq<char> },
    Storage(StorageErrorView),
}

impl View for QueryError {
    type V = QueryErrorView;

    open spec fn view(&self) -> QueryErrorView {
        match self {
            QueryError::UnexpectedChar { ch, pos } => QueryErrorView::UnexpectedChar { ch: *ch, pos: *pos },
            QueryError::UnterminatedString { pos } => QueryErrorView::UnterminatedString { pos: *pos },
            QueryError::UnexpectedToken { expected, found } => QueryErrorView::UnexpectedToken {
                expected: expected@,
                found: found@,
            },
            QueryError::UnexpectedEnd { expected } => QueryErrorView::UnexpectedEnd { expected: expected@ },
            QueryError::NoSuchTable(t) => QueryErrorView::NoSuchTable(t@),
            QueryError::NoSuchColumn(c) => QueryErrorView::NoSuchColumn(c@),
            QueryError::WrongRecordType { expected, actual } => QueryErrorView::WrongRecordType {
                expected: expected@,
                actual: actual@,
            },
            QueryError::Storage(e) => QueryErrorView::Storage(e@),
        }
    }
}

} // verus!
