//! Running a plan: walking a table's b-tree for the rows that meet the
//! plan's conditions.

use vstd::prelude::*;
use crate::btree::{CellView, TableLeafCell, TreeKind, walk, walk_index, walk_result};
use crate::error::{QueryError, QueryErrorView};
use crate::plan::{Plan, PlanView};
use crate::record::ColumnView;
use crate::resolve::{TableSchemas, TableSchemasView};
use crate::schema::root_index;

verus! {

/// The rows of the table `t` that meet the conditions `normal`, in rowid order.
pub open spec fn table_cells(db: Seq<u8>, ps: u16, t: TableSchemasView, normal: Seq<(usize, ColumnView)>) -> Result<Seq<CellView>, QueryErrorView> {
    match root_index(t.table.rootpage) {
        Err(e) => Err(QueryErrorView::Storage(e)),
        Ok(root) => walk_result(db, ps, TreeKind::Table, root, t.table.ty, normal),
    }
}

/// The cells of the first index of `t`, walked from its root page.
pub open spec fn index_cells(db: Seq<u8>, ps: u16, t: TableSchemasView) -> Result<Seq<CellView>, QueryErrorView> {
    match root_index(t.indexes[0].rootpage) {
        Err(e) => Err(QueryErrorView::Storage(e)),
        Ok(root) => walk_result(db, ps, TreeKind::Index, root, t.indexes[0].ty, Seq::empty()),
    }
}

/// Whether the plan `p` can be run on `t`: it has no condition that an
/// index serves, or the walk of the first index fails. Rows are never looked
/// up through the cells of an index.
pub open spec fn plan_runs(db: Seq<u8>, ps: u16, t: TableSchemasView, p: PlanView) -> bool {
    p.indexed.len() == 0 || (t.indexes.len() > 0 && index_cells(db, ps, t) is Err)
}

/// What running the plan `p` on `t` gives: without indexed conditions, the
/// rows that meet its conditions; with them, the error of the index walk
/// (where `plan_runs` holds, that walk fails).
pub open spec fn plan_cells(db: Seq<u8>, ps: u16, t: TableSchemasView, p: PlanView) -> Result<Seq<CellView>, QueryErrorView> {
    if p.indexed.len() == 0 {
        table_cells(db, ps, t, p.normal)
    } else {
        index_cells(db, ps, t)
    }
}

/// Walks the first index of `table_schemas` from its root page.
pub fn walk_first_index(db: &[u8], table_schemas: &TableSchemas, page_size: u16) -> (r: Result<Vec<TableLeafCell>, QueryError>)
    requires
        table_schemas@.indexes.len() > 0,
    ensures
        match index_cells(db@, page_size, table_schemas@) {
            Ok(cs) => r matches Ok(v) && v.deep_view() == cs,
            Err(e) => r matches Err(f) && f@ == e,
        },
{
    let index_schema = table_schemas.indexes[0];
    let root = match index_schema.rootpage_index() {
        Ok(root) => root,
        Err(e) => {
            return Err(QueryError::Storage(e));
        },
    };
    let mut cells: Vec<TableLeafCell> = Vec::new();
    match walk_index(db, page_size, root, index_schema.ty(), &mut cells) {
        Ok(()) => {
            assert(Seq::<CellView>::empty() + cells.deep_view() =~= cells.deep_view());
            Ok(cells)
        },
        Err(e) => Err(e),
    }
}

/// Walks the table's b-tree for the rows that meet the plan's conditions.
/// A plan with conditions that an index serves first walks the index; rows
/// are not looked up through its cells, so that walk must fail.
pub fn btree_walk(db: &[u8], plan: Plan, table_schemas: TableSchemas, page_size: u16) -> (r: Result<Vec<TableLeafCell>, QueryError>)
    requires
        plan_runs(db@, page_size, table_schemas@, plan@),
    ensures
        match plan_cells(db@, page_size, table_schemas@, plan@) {
            Ok(cs) => r matches Ok(v) && v.deep_view() == cs,
            Err(e) => r matches Err(f) && f@ == e,
        },
{
    if plan.indexed.len() > 0 {
        return match walk_first_index(db, &table_schemas, page_size) {
            Err(e) => Err(e),
            Ok(index_cells) => {
                proof { assert(false); }
                Ok(index_cells)
            },
        };
    }
    let mut cells: Vec<TableLeafCell> = Vec::new();
    let root = match table_schemas.table.rootpage_index() {
        Ok(root) => root,
        Err(e) => {
            return Err(QueryError::Storage(e));
        },
    };
    match walk(db, page_size, root, table_schemas.table.ty(), &plan.normal, &mut cells) {
        Ok(()) => {
            assert(Seq::<CellView>::empty() + cells.deep_view() =~= cells.deep_view());
            Ok(cells)
        },
        Err(e) => Err(e),
    }
}

} // verus!
