//! Selecting the requested columns of the rows a query found.

use vstd::prelude::*;
use crate::btree::{CellView, TableLeafCell};
use crate::error::{QueryError, QueryErrorView, StorageError, StorageErrorView};
use crate::record::{Column, ColumnView};
use crate::schema::{column_index, column_position, ident_views, lemma_position_below};
use crate::tokenize::Ident;

verus! {

/// The first row, from the `i`-th on, that has no column `t`.
pub open spec fn first_short_row(cells: Seq<CellView>, t: nat, i: nat) -> Option<nat>
    decreases cells.len() - i,
{
    if i >= cells.len() {
        None
    } else if cells[i as int].values.len() <= t {
        Some(i)
    } else {
        first_short_row(cells, t, i + 1)
    }
}

/// The error, if any, of selecting the columns `what` (from the `j`-th on)
/// of the rows `cells` of a table with columns `cols`: columns are looked
/// at in order, and for each column the rows in order.
pub open spec fn select_error(cells: Seq<CellView>, what: Seq<Seq<char>>, cols: Seq<Seq<char>>, j: nat) -> Option<QueryErrorView>
    decreases what.len() - j,
{
    if j >= what.len() {
        None
    } else {
        match column_position(cols, what[j as int]) {
            None => Some(QueryErrorView::NoSuchColumn(what[j as int])),
            Some(t) => match first_short_row(cells, t, 0) {
                Some(r) => Some(QueryErrorView::Storage(StorageErrorView::RecordTooShort {
                    column: t as usize,
                    len: cells[r as int].values.len() as usize,
                })),
                None => select_error(cells, what, cols, j + 1),
            },
        }
    }
}

/// The columns `what` of each row of `cells`, or the error.
pub open spec fn select_spec(cells: Seq<CellView>, what: Seq<Seq<char>>, cols: Seq<Seq<char>>) -> Result<Seq<Seq<ColumnView>>, QueryErrorView> {
    match select_error(cells, what, cols, 0) {
        Some(e) => Err(e),
        None => Ok(Seq::new(cells.len(), |r: int| Seq::new(what.len(), |c: int|
            cells[r].values[column_position(cols, what[c])->0 as int]))),
    }
}

/// The views of the rows `rows`.
pub open spec fn grid_views(rows: Seq<Vec<Column>>) -> Seq<Seq<ColumnView>> {
    rows.map_values(|r: Vec<Column>| r.deep_view())
}

/// Selects the columns `what`, in that order, of each row of `cells`.
#[verifier::loop_isolation(false)]
pub fn filter_what_col(cells: &[TableLeafCell], what: &[Ident], parsed_columns: &Vec<Ident>) -> (r: Result<Vec<Vec<Column>>, QueryError>)
    requires
        what@.len() > 0,
    ensures
        match select_spec(cells@.map_values(|c: TableLeafCell| c@), what@.map_values(|i: Ident| i@), ident_views(parsed_columns@)) {
            Ok(rows) => r matches Ok(v) && grid_views(v@) == rows,
            Err(e) => r matches Err(f) && f@ == e,
        },
{
    let ghost cv = cells@.map_values(|c: TableLeafCell| c@);
    let ghost wv = what@.map_values(|i: Ident| i@);
    let ghost cols = ident_views(parsed_columns@);
    let ncols = parsed_columns.len();
    assert(cols.len() == ncols);
    let mut idxs: Vec<usize> = Vec::new();
    let mut j: usize = 0;
    while j < what.len()
        invariant
            j <= what@.len(),
            cv == cells@.map_values(|c: TableLeafCell| c@),
            wv == what@.map_values(|i: Ident| i@),
            cols == ident_views(parsed_columns@),
            select_error(cv, wv, cols, 0) == select_error(cv, wv, cols, j as nat),
            idxs@.len() == j,
            forall|k: int| 0 <= k < j ==> column_position(cols, #[trigger] wv[k]) == Some(idxs@[k] as nat),
            forall|k: int, r: int| 0 <= k < j && 0 <= r < cv.len() ==> #[trigger] idxs@[k] < (#[trigger] cv[r]).values.len(),
        decreases what@.len() - j,
    {
        assert(wv[j as int] == what@[j as int]@);
        proof { lemma_position_below(cols, wv[j as int], cols.len()); }
        let t = match column_index(parsed_columns, &what[j]) {
            Some(t) => t,
            None => {
                return Err(QueryError::NoSuchColumn(what[j].duplicate()));
            },
        };
        let mut row: usize = 0;
        while row < cells.len()
            invariant
                row <= cells@.len(),
                cv == cells@.map_values(|c: TableLeafCell| c@),
                first_short_row(cv, t as nat, 0) == first_short_row(cv, t as nat, row as nat),
                forall|r: int| 0 <= r < row ==> t < (#[trigger] cv[r]).values.len(),
            decreases cells@.len() - row,
        {
            assert(cv[row as int] == cells@[row as int]@);
            assert(cells@[row as int].record.values.deep_view().len() == cells@[row as int].record.values@.len());
            let len = cells[row].record.values.len();
            if len <= t {
                return Err(QueryError::Storage(StorageError::RecordTooShort { column: t, len }));
            }
            row = row + 1;
        }
        assert(first_short_row(cv, t as nat, row as nat) is None);
        assert(column_position(cols, wv[j as int]) == Some(t as nat));
        assert(select_error(cv, wv, cols, j as nat) == select_error(cv, wv, cols, (j + 1) as nat));
        idxs.push(t);
        j = j + 1;
    }
    let mut out: Vec<Vec<Column>> = Vec::new();
    let mut row: usize = 0;
    while row < cells.len()
        invariant
            row <= cells@.len(),
            cv == cells@.map_values(|c: TableLeafCell| c@),
            wv == what@.map_values(|i: Ident| i@),
            cols == ident_views(parsed_columns@),
            select_error(cv, wv, cols, 0) is None,
            idxs@.len() == what@.len(),
            forall|k: int| 0 <= k < what@.len() ==> column_position(cols, #[trigger] wv[k]) == Some(idxs@[k] as nat),
            forall|k: int, r: int| 0 <= k < what@.len() && 0 <= r < cv.len() ==> #[trigger] idxs@[k] < (#[trigger] cv[r]).values.len(),
            grid_views(out@) == Seq::new(row as nat, |r: int| Seq::new(wv.len(), |c: int| cv[r].values[column_position(cols, wv[c])->0 as int])),
        decreases cells@.len() - row,
    {
        let values = &cells[row].record.values;
        assert(cv[row as int] == cells@[row as int]@);
        let mut line: Vec<Column> = Vec::new();
        let mut k: usize = 0;
        while k < idxs.len()
            invariant
                k <= idxs@.len() == wv.len(),
                row < cv.len(),
                cv == cells@.map_values(|c: TableLeafCell| c@),
                values.deep_view() == cv[row as int].values,
                forall|k2: int| 0 <= k2 < wv.len() ==> column_position(cols, #[trigger] wv[k2]) == Some(idxs@[k2] as nat),
                forall|k2: int, r: int| 0 <= k2 < wv.len() && 0 <= r < cv.len() ==> #[trigger] idxs@[k2] < (#[trigger] cv[r]).values.len(),
                line.deep_view() == Seq::new(k as nat, |c: int| cv[row as int].values[column_position(cols, wv[c])->0 as int]),
            decreases idxs@.len() - k,
        {
            let t = idxs[k];
            assert(column_position(cols, wv[k as int]) == Some(t as nat));
            assert(t < cv[row as int].values.len());
            assert(values.deep_view()[t as int] == values@[t as int]@);
            let v = values[t].duplicate();
            let ghost before_line = line.deep_view();
            line.push(v);
            assert(line.deep_view() == before_line.push(v@));
            k = k + 1;
            proof {
                assert(line.deep_view() =~= Seq::new(k as nat, |c: int| cv[row as int].values[column_position(cols, wv[c])->0 as int]));
            }
        }
        let ghost before = grid_views(out@);
        out.push(line);
        assert(grid_views(out@) == before.push(line.deep_view()));
        row = row + 1;
        proof {
            assert(grid_views(out@) =~= Seq::new(row as nat, |r: int| Seq::new(wv.len(), |c: int| cv[r].values[column_position(cols, wv[c])->0 as int])));
        }
    }
    Ok(out)
}

} // verus!
