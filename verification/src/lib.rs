//! A reader for SQLite 3 database files: the record and b-tree page formats,
//! the `sqlite_schema` table, and a small `SELECT ... FROM ... WHERE` dialect.
//!
//! The library works on bytes that are already in memory; reading the file
//! and printing results is left to the caller.

use vstd::prelude::*;

pub mod cli;
pub mod error;
pub mod common;
pub mod text;
pub mod record;
pub mod btree;
pub mod page;
pub mod tokenize;
pub mod spacing;
pub mod parse;
pub mod grammar;
pub mod schema;
pub mod resolve;
pub mod plan;
pub mod fmt;
pub mod format;
pub mod execute;
pub mod dbinfo;
pub mod tables;
pub mod sql_query;
