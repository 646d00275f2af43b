//! The SQL command: `SELECT ... FROM ... [WHERE ...]` against a database.

use vstd::prelude::*;
use crate::btree::TableLeafCell;
use crate::error::{QueryError, QueryErrorView};
use crate::execute::{btree_walk, plan_cells, plan_runs, walk_first_index};
use crate::fmt::{join, push_joined, string_views};
use crate::format::{filter_what_col, grid_views, select_spec};
use crate::parse::{ParsedView, Projection, ProjectionView, lemma_columns_not_empty, parse_query, parse_spec};
use crate::plan::{Plan, PlanView, plan, plan_spec};
use crate::record::{Column, ColumnView};
use crate::resolve::{TableSchemas, TableSchemasView, resolve_spec, resolve_table_schemas, schema_views};
use crate::schema::{RecordType, SchemaView, SqliteSchema};
use crate::text::string_from_chars;
use crate::tokenize::{Ident, tokenize, tokens_spec};

verus! {

/// The query text made of the words `words`, separated by spaces.
pub open spec fn query_text(words: Seq<Seq<char>>) -> Seq<char> {
    join(words, " "@)
}

/// A query ready to run: what it selects, the table's schemas, and its plan.
pub struct PreparedView {
    pub parsed: ParsedView,
    pub tables: TableSchemasView,
    pub plan: PlanView,
}

/// The query `q` against the schema rows `schemas`, parsed, resolved and planned.
pub open spec fn prepare_spec(schemas: Seq<SchemaView>, q: Seq<char>) -> Result<PreparedView, QueryErrorView> {
    match tokens_spec(q) {
        Err(e) => Err(e),
        Ok(ts) => match parse_spec(ts) {
            Err(e) => Err(e),
            Ok(p) => match resolve_spec(schemas, p.table) {
                Err(e) => Err(e),
                Ok(t) => match plan_spec(p.conditions, t.table.ty->Table_columns, t.indexes) {
                    Err(e) => Err(e),
                    Ok(pl) => Ok(PreparedView { parsed: p, tables: t, plan: pl }),
                },
            },
        },
    }
}

/// Whether the query `q` can be run on the database `db`: where it
/// prepares, its plan runs (see `plan_runs`).
pub open spec fn query_runs(db: Seq<u8>, ps: u16, schemas: Seq<SchemaView>, q: Seq<char>) -> bool {
    prepare_spec(schemas, q) matches Ok(p) ==> plan_runs(db, ps, p.tables, p.plan)
}

/// What a query gives back: the number of rows it counts, or the selected
/// columns of each row.
#[derive(Debug)]
pub enum QueryOutput {
    Count(usize),
    Rows(Vec<Vec<Column>>),
}

pub enum QueryOutputView {
    Count(nat),
    Rows(Seq<Seq<ColumnView>>),
}

impl View for QueryOutput {
    type V = QueryOutputView;

    open spec fn view(&self) -> QueryOutputView {
        match self {
            QueryOutput::Count(n) => QueryOutputView::Count(*n as nat),
            QueryOutput::Rows(rows) => QueryOutputView::Rows(grid_views(rows@)),
        }
    }
}

/// What the query `q` gives back on the database `db` (pages of `ps`
/// bytes) whose schema rows are `schemas`.
pub open spec fn run_spec(db: Seq<u8>, ps: u16, schemas: Seq<SchemaView>, q: Seq<char>) -> Result<QueryOutputView, QueryErrorView> {
    match prepare_spec(schemas, q) {
        Err(e) => Err(e),
        Ok(p) => match plan_cells(db, ps, p.tables, p.plan) {
            Err(e) => Err(e),
            Ok(cells) => match p.parsed.projection {
                ProjectionView::Count => Ok(QueryOutputView::Count(cells.len())),
                ProjectionView::Columns(cols) => match select_spec(cells, cols, p.tables.table.ty->Table_columns) {
                    Ok(rows) => Ok(QueryOutputView::Rows(rows)),
                    Err(e) => Err(e),
                },
            },
        },
    }
}

/// A query ready to run.
pub struct Prepared<'a> {
    pub projection: Projection,
    pub table_schemas: TableSchemas<'a>,
    pub plan: Plan,
}

/// The query text: the words of `query`, separated by spaces.
pub fn query_string(query: &[String]) -> (r: String)
    ensures
        r@ == query_text(string_views(query@)),
{
    let space: [char; 1] = [' '];
    assert(space@ == " "@) by {
        reveal_strlit(" ");
    }
    let mut out: Vec<char> = Vec::new();
    push_joined(query, space.as_slice(), &mut out);
    assert(out@ == join(string_views(query@), " "@));
    string_from_chars(out.as_slice())
}

/// Tokenizes, parses, resolves and plans the query made of the words `query`.
pub fn prepare<'a>(schemas: &'a [SqliteSchema], query: &[String]) -> (r: Result<Prepared<'a>, QueryError>)
    ensures
        match prepare_spec(schema_views(schemas@), query_text(string_views(query@))) {
            Ok(p) => r matches Ok(v) && v.projection@ == p.parsed.projection && v.table_schemas@ == p.tables
                && v.plan@ == p.plan && v.table_schemas@.table.ty is Table,
            Err(e) => r matches Err(f) && f@ == e,
        },
{
    let text = query_string(query);
    let tokens = tokenize(text.as_str())?;
    let parsed = parse_query(tokens)?;
    let table_schemas = resolve_table_schemas(schemas, &parsed.table)?;
    let columns = match table_schemas.table.ty() {
        RecordType::Table { parsed_columns, .. } => parsed_columns,
        RecordType::Index { .. } => {
            proof { assert(false); }
            return Err(QueryError::NoSuchTable(parsed.table));
        },
    };
    let walk_plan = plan(parsed.conditions, columns, &table_schemas)?;
    Ok(Prepared { projection: parsed.projection, table_schemas, plan: walk_plan })
}

/// Whether the query made of the words `query` can be run on the database
/// `db`: it has no condition that an index of its table serves, or it fails
/// before rows would be looked up through the index.
pub fn runnable(db: &[u8], schemas: &[SqliteSchema], page_size: u16, query: &[String]) -> (r: bool)
    ensures
        r == query_runs(db@, page_size, schema_views(schemas@), query_text(string_views(query@))),
{
    match prepare(schemas, query) {
        Ok(p) => {
            if p.plan.indexed.len() == 0 {
                true
            } else if p.table_schemas.indexes.len() == 0 {
                false
            } else {
                walk_first_index(db, &p.table_schemas, page_size).is_err()
            }
        },
        Err(_) => true,
    }
}

/// Runs the query made of the words `query` on the database `db`, whose
/// pages are `page_size` bytes and whose schema rows are `schemas`.
pub fn run(db: &[u8], schemas: &[SqliteSchema], page_size: u16, query: &[String]) -> (r: Result<QueryOutput, QueryError>)
    requires
        query_runs(db@, page_size, schema_views(schemas@), query_text(string_views(query@))),
    ensures
        match run_spec(db@, page_size, schema_views(schemas@), query_text(string_views(query@))) {
            Ok(o) => r matches Ok(v) && v@ == o,
            Err(e) => r matches Err(f) && f@ == e,
        },
{
    let ghost q = query_text(string_views(query@));
    let prepared = prepare(schemas, query)?;
    let ghost pv = prepare_spec(schema_views(schemas@), q)->Ok_0;
    proof {
        let ts = tokens_spec(q)->Ok_0;
        lemma_columns_not_empty(ts);
    }
    let table: &SqliteSchema = prepared.table_schemas.table;
    let columns = match table.ty() {
        RecordType::Table { parsed_columns, .. } => parsed_columns,
        RecordType::Index { .. } => {
            proof { assert(false); }
            return Err(QueryError::NoSuchTable(table.tbl_name().duplicate()));
        },
    };
    let cells = btree_walk(db, prepared.plan, prepared.table_schemas, page_size)?;
    assert(cells@.map_values(|c: TableLeafCell| c@) =~= cells.deep_view());
    match prepared.projection {
        Projection::Count => Ok(QueryOutput::Count(cells.len())),
        Projection::Columns(what) => {
            assert(what@.map_values(|i: Ident| i@) =~= what.deep_view());
            let rows = filter_what_col(cells.as_slice(), what.as_slice(), columns)?;
            Ok(QueryOutput::Rows(rows))
        },
    }
}


proof fn lemma_select_rows_len(cells: Seq<crate::btree::CellView>, what: Seq<Seq<char>>, cols: Seq<Seq<char>>)
    ensures
        select_spec(cells, what, cols) matches Ok(rows) ==> rows.len() == cells.len(),
{
}

/// `COUNT(*)` counts the rows that selecting columns lists: two queries on
/// the same table with the same conditions, one counting and one
/// selecting, agree on the number of rows.
pub proof fn lemma_count_matches_rows(db: Seq<u8>, ps: u16, schemas: Seq<SchemaView>, q1: Seq<char>, q2: Seq<char>)
    requires
        prepare_spec(schemas, q1) matches Ok(p1) && prepare_spec(schemas, q2) matches Ok(p2)
            && p1.tables == p2.tables && p1.plan == p2.plan,
    ensures
        run_spec(db, ps, schemas, q1) matches Ok(QueryOutputView::Count(n))
            ==> (run_spec(db, ps, schemas, q2) matches Ok(QueryOutputView::Rows(rows)) ==> n == rows.len()),
{
    let p1 = prepare_spec(schemas, q1)->Ok_0;
    let p2 = prepare_spec(schemas, q2)->Ok_0;
    if let Ok(cells) = plan_cells(db, ps, p2.tables, p2.plan) {
        if let ProjectionView::Columns(cols) = p2.parsed.projection {
            lemma_select_rows_len(cells, cols, p2.tables.table.ty->Table_columns);
        }
    }
}

} // verus!
