//! Finding the schemas of a table: the table's own and those of its indexes.

use vstd::prelude::*;
use crate::error::{QueryError, QueryErrorView, StorageError, StorageErrorView};
use crate::schema::{RecordType, SchemaView, SqliteSchema};
use crate::tokenize::Ident;

verus! {

broadcast use vstd::seq_lib::group_seq_properties, vstd::seq::Seq::lemma_filter_push;

/// The schema of a table and those of the indexes on it.
pub struct TableSchemas<'a> {
    pub table: &'a SqliteSchema,
    pub indexes: Vec<&'a SqliteSchema>,
}

pub struct TableSchemasView {
    pub table: SchemaView,
    pub indexes: Seq<SchemaView>,
}

impl<'a> View for TableSchemas<'a> {
    type V = TableSchemasView;

    open spec fn view(&self) -> TableSchemasView {
        TableSchemasView { table: self.table@, indexes: self.indexes.deep_view() }
    }
}

impl<'a> TableSchemas<'a> {
    pub fn new(table: &'a SqliteSchema, indexes: Vec<&'a SqliteSchema>) -> (r: TableSchemas<'a>)
        ensures
            r.table == table,
            r.indexes == indexes,
    {
        TableSchemas { table, indexes }
    }
}

/// The views of the schemas `s`.
pub open spec fn schema_views(s: Seq<SqliteSchema>) -> Seq<SchemaView> {
    s.map_values(|x: SqliteSchema| x@)
}

/// Whether `s` is the schema of the table `name`.
pub open spec fn is_table_of(name: Seq<char>) -> spec_fn(SchemaView) -> bool {
    |s: SchemaView| s.tbl_name == name && s.ty is Table
}

/// Whether `s` is the schema of an index on the table `name`.
pub open spec fn is_index_of(name: Seq<char>) -> spec_fn(SchemaView) -> bool {
    |s: SchemaView| s.tbl_name == name && s.ty is Index
}

/// The table `name` among `schemas`: its one table schema and its index
/// schemas in order; an error when it has no table schema or more than one.
pub open spec fn resolve_spec(schemas: Seq<SchemaView>, name: Seq<char>) -> Result<TableSchemasView, QueryErrorView> {
    let tables = schemas.filter(is_table_of(name));
    if tables.len() == 0 {
        Err(QueryErrorView::NoSuchTable(name))
    } else if tables.len() >= 2 {
        Err(QueryErrorView::Storage(StorageErrorView::DuplicateTable(name)))
    } else {
        Ok(TableSchemasView { table: tables[0], indexes: schemas.filter(is_index_of(name)) })
    }
}

/// Finds the schemas of the table `tbl_name`: its table schema (exactly one)
/// and the schemas of its indexes.
pub fn resolve_table_schemas<'a>(schemas: &'a [SqliteSchema], tbl_name: &Ident) -> (r: Result<TableSchemas<'a>, QueryError>)
    ensures
        match resolve_spec(schema_views(schemas@), tbl_name@) {
            Ok(v) => r matches Ok(t) && t@ == v && t.table@.ty is Table,
            Err(e) => r matches Err(f) && f@ == e,
        },
{
    let ghost all = schema_views(schemas@);
    let ghost pt = is_table_of(tbl_name@);
    let ghost pi = is_index_of(tbl_name@);
    let mut table_schema: Option<&SqliteSchema> = None;
    let mut index_schemas: Vec<&SqliteSchema> = Vec::new();
    let mut i: usize = 0;
    let n = schemas.len();
    proof {
        assert(all.take(0) == Seq::<SchemaView>::empty());
        reveal_with_fuel(Seq::filter, 1);
    }
    while i < n
        invariant
            n == schemas@.len() == all.len(),
            all == schema_views(schemas@),
            pt == is_table_of(tbl_name@),
            pi == is_index_of(tbl_name@),
            i <= n,
            all.take(i as int).filter(pt).len() <= 1,
            all.take(i as int).filter(pt).len() == 0 <==> table_schema is None,
            table_schema matches Some(t) ==> t@ == all.take(i as int).filter(pt)[0] && t@.ty is Table,
            index_schemas.deep_view() == all.take(i as int).filter(pi),
        decreases n - i,
    {
        let s = &schemas[i];
        assert(all.take(i + 1) == all.take(i as int).push(s@));
        if s.tbl_name().same(tbl_name) {
            match s.ty() {
                RecordType::Table { .. } => {
                    match table_schema {
                        Some(t) => {
                            proof {
                                assert(all.take(i + 1).filter(pt).len() == 2);
                                all.lemma_filter_take_len(pt, i + 1);
                            }
                            return Err(QueryError::Storage(StorageError::DuplicateTable(t.tbl_name().duplicate())));
                        },
                        None => {
                            table_schema = Some(s);
                        },
                    }
                },
                RecordType::Index { .. } => {
                    index_schemas.push(s);
                },
            }
        }
        i = i + 1;
    }
    proof {
        assert(all.take(n as int) == all);
    }
    match table_schema {
        None => Err(QueryError::NoSuchTable(tbl_name.duplicate())),
        Some(t) => Ok(TableSchemas::new(t, index_schemas)),
    }
}


/// A resolved table is a table schema of that name, and its indexes are
/// index schemas on that table.
pub proof fn lemma_resolve_matches(schemas: Seq<SchemaView>, name: Seq<char>)
    ensures
        resolve_spec(schemas, name) matches Ok(t) ==> (t.table.tbl_name == name && t.table.ty is Table
            && forall|k: int| 0 <= k < t.indexes.len() ==> (#[trigger] t.indexes[k]).tbl_name == name && t.indexes[k].ty is Index),
{
    broadcast use vstd::seq_lib::group_filter_ensures;
    let tables = schemas.filter(is_table_of(name));
    if tables.len() == 1 {
        assert(is_table_of(name)(tables[0]));
        let idx = schemas.filter(is_index_of(name));
        assert forall|k: int| 0 <= k < idx.len() implies (#[trigger] idx[k]).tbl_name == name && idx[k].ty is Index by {
            assert(is_index_of(name)(idx[k]));
        }
    }
}

} // verus!
