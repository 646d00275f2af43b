//! Planning a query: which conditions a table's indexes could serve.

use std::collections::HashSet;
use vstd::prelude::*;
use crate::btree::condition_views;
use crate::error::{QueryError, QueryErrorView};
use crate::parse::{Condition, ConditionView};
use crate::record::{Column, ColumnView};
use crate::resolve::TableSchemas;
use crate::schema::{RecordType, RecordTypeView, SchemaView, column_index, column_position, ident_views};
use crate::tokenize::Ident;

verus! {

broadcast use vstd::seq_lib::group_seq_properties, vstd::seq::Seq::lemma_filter_push, vstd::std_specs::hash::group_hash_axioms;

/// The conditions of a query as (column index, expected value) pairs: those
/// on an indexed column, and the others.
pub struct Plan {
    pub indexed: Vec<(usize, Column)>,
    pub normal: Vec<(usize, Column)>,
}

pub struct PlanView {
    pub indexed: Seq<(usize, ColumnView)>,
    pub normal: Seq<(usize, ColumnView)>,
}

impl View for Plan {
    type V = PlanView;

    open spec fn view(&self) -> PlanView {
        PlanView { indexed: condition_views(self.indexed@), normal: condition_views(self.normal@) }
    }
}

/// The column indices, among the columns `cols`, of the columns that the
/// first `n` of `indexes` are on.
pub open spec fn indexed_positions(indexes: Seq<SchemaView>, cols: Seq<Seq<char>>, n: nat) -> Seq<usize>
    decreases n,
{
    if n == 0 {
        Seq::empty()
    } else {
        let rest = indexed_positions(indexes, cols, (n - 1) as nat);
        match indexes[n - 1].ty {
            RecordTypeView::Index { col_name } => match column_position(cols, col_name) {
                Some(i) => rest.push(i as usize),
                None => rest,
            },
            _ => rest,
        }
    }
}

/// Whether column `idx` of the table with columns `cols` has one of the
/// indexes `indexes`.
pub open spec fn is_indexed(indexes: Seq<SchemaView>, cols: Seq<Seq<char>>, idx: usize) -> bool {
    indexed_positions(indexes, cols, indexes.len()).contains(idx)
}

/// The conditions `conds` as (column index, expected value) pairs, or the
/// error naming the first condition on a column that `cols` lacks.
pub open spec fn condition_columns(conds: Seq<ConditionView>, cols: Seq<Seq<char>>) -> Result<Seq<(usize, ColumnView)>, QueryErrorView>
    decreases conds.len(),
{
    if conds.len() == 0 {
        Ok(Seq::empty())
    } else {
        match column_position(cols, conds[0].column_name) {
            None => Err(QueryErrorView::NoSuchColumn(conds[0].column_name)),
            Some(i) => match condition_columns(conds.drop_first(), cols) {
                Ok(r) => Ok(seq![(i as usize, conds[0].exp_value)] + r),
                Err(e) => Err(e),
            },
        }
    }
}

/// The plan for the conditions `conds` on the table with columns `cols` and
/// indexes `indexes`: the conditions on indexed columns, and the others,
/// each in their order.
pub open spec fn plan_spec(conds: Seq<ConditionView>, cols: Seq<Seq<char>>, indexes: Seq<SchemaView>) -> Result<PlanView, QueryErrorView> {
    match condition_columns(conds, cols) {
        Err(e) => Err(e),
        Ok(pairs) => Ok(PlanView {
            indexed: pairs.filter(|p: (usize, ColumnView)| is_indexed(indexes, cols, p.0)),
            normal: pairs.filter(|p: (usize, ColumnView)| !is_indexed(indexes, cols, p.0)),
        }),
    }
}

/// Splits the conditions into those an index could serve and the others.
pub fn plan(conditions: Vec<Condition>, parsed_columns: &Vec<Ident>, table_schemas: &TableSchemas) -> (r: Result<Plan, QueryError>)
    ensures
        match plan_spec(conditions.deep_view(), ident_views(parsed_columns@), table_schemas@.indexes) {
            Ok(p) => r matches Ok(q) && q@ == p,
            Err(e) => r matches Err(f) && f@ == e,
        },
{
    let ghost cols = ident_views(parsed_columns@);
    let ghost idxs = table_schemas@.indexes;
    let indexes = &table_schemas.indexes;
    let mut indexed_cols: HashSet<usize> = HashSet::new();
    let mut j: usize = 0;
    while j < indexes.len()
        invariant
            j <= indexes@.len(),
            idxs == indexes.deep_view(),
            cols == ident_views(parsed_columns@),
            indexed_cols@ == indexed_positions(idxs, cols, j as nat).to_set(),
        decreases indexes@.len() - j,
    {
        let s = indexes[j];
        assert(idxs[j as int] == s@);
        match s.ty() {
            RecordType::Index { col_name } => {
                match column_index(parsed_columns, col_name) {
                    Some(i) => {
                        let ghost seen = indexed_positions(idxs, cols, j as nat);
                        indexed_cols.insert(i);
                        assert(seen.push(i).to_set() =~= seen.to_set().insert(i));
                    },
                    None => {},
                }
            },
            RecordType::Table { .. } => {},
        }
        j = j + 1;
    }

    let ghost conds = conditions.deep_view();
    let mut pairs: Vec<(usize, Column)> = Vec::new();
    let mut i: usize = 0;
    let n = conditions.len();
    while i < n
        invariant
            n == conditions@.len() == conds.len(),
            conds == conditions.deep_view(),
            cols == ident_views(parsed_columns@),
            i <= n,
            condition_columns(conds, cols) == match condition_columns(conds.subrange(i as int, n as int), cols) {
                Ok(r) => Ok(condition_views(pairs@) + r),
                Err(e) => Err::<Seq<(usize, ColumnView)>, QueryErrorView>(e),
            },
        decreases n - i,
    {
        let c = &conditions[i];
        assert(conds[i as int] == c@);
        assert(conds.subrange(i as int, n as int).drop_first() == conds.subrange(i + 1, n as int));
        match column_index(parsed_columns, &c.column_name) {
            None => {
                return Err(QueryError::NoSuchColumn(c.column_name.duplicate()));
            },
            Some(idx) => {
                let ghost before = condition_views(pairs@);
                pairs.push((idx, c.exp_value.duplicate()));
                proof {
                    assert(condition_views(pairs@) == before + seq![(idx, c.exp_value@)]);
                    match condition_columns(conds.subrange(i + 1, n as int), cols) {
                        Ok(r) => { assert(before + (seq![(idx, c.exp_value@)] + r) == condition_views(pairs@) + r); },
                        Err(e) => {},
                    }
                }
            },
        }
        i = i + 1;
    }
    proof {
        assert(conds.subrange(0, n as int) == conds);
        assert(conds.subrange(n as int, n as int) == Seq::<ConditionView>::empty());
        assert(condition_views(pairs@) + Seq::<(usize, ColumnView)>::empty() == condition_views(pairs@));
    }

    let ghost all = condition_views(pairs@);
    let ghost pin = |p: (usize, ColumnView)| is_indexed(idxs, cols, p.0);
    let ghost pout = |p: (usize, ColumnView)| !is_indexed(idxs, cols, p.0);
    let mut indexed: Vec<(usize, Column)> = Vec::new();
    let mut normal: Vec<(usize, Column)> = Vec::new();
    let mut k: usize = 0;
    proof {
        assert(all.take(0) == Seq::<(usize, ColumnView)>::empty());
        reveal_with_fuel(Seq::filter, 1);
    }
    while k < pairs.len()
        invariant
            k <= pairs@.len(),
            all == condition_views(pairs@),
            pin == (|p: (usize, ColumnView)| is_indexed(idxs, cols, p.0)),
            pout == (|p: (usize, ColumnView)| !is_indexed(idxs, cols, p.0)),
            indexed_cols@ == indexed_positions(idxs, cols, idxs.len()).to_set(),
            condition_views(indexed@) == all.take(k as int).filter(pin),
            condition_views(normal@) == all.take(k as int).filter(pout),
        decreases pairs@.len() - k,
    {
        let (idx, value) = (pairs[k].0, pairs[k].1.duplicate());
        assert(all.take(k + 1) == all.take(k as int).push((idx, value@)));
        let served = indexed_cols.contains(&idx);
        assert(served == is_indexed(idxs, cols, idx));
        if served {
            indexed.push((idx, value));
        } else {
            normal.push((idx, value));
        }
        k = k + 1;
    }
    proof {
        assert(all.take(pairs@.len() as int) == all);
    }
    Ok(Plan { indexed, normal })
}


proof fn lemma_condition_columns_len(conds: Seq<ConditionView>, cols: Seq<Seq<char>>)
    ensures
        condition_columns(conds, cols) matches Ok(pairs) ==> pairs.len() == conds.len(),
    decreases conds.len(),
{
    if conds.len() > 0 {
        lemma_condition_columns_len(conds.drop_first(), cols);
    }
}

proof fn lemma_filter_split_len<A>(s: Seq<A>, p: spec_fn(A) -> bool, q: spec_fn(A) -> bool)
    requires
        forall|a: A| #[trigger] q(a) == !p(a),
    ensures
        s.filter(p).len() + s.filter(q).len() == s.len(),
    decreases s.len(),
{
    reveal_with_fuel(Seq::filter, 1);
    if s.len() > 0 {
        lemma_filter_split_len(s.drop_last(), p, q);
    }
}

/// Planning sorts every condition into exactly one of the two lists: the
/// indexed ones are on columns an index covers, the others are not, and
/// none is lost.
pub proof fn lemma_plan_partition(conds: Seq<ConditionView>, cols: Seq<Seq<char>>, indexes: Seq<SchemaView>)
    ensures
        plan_spec(conds, cols, indexes) matches Ok(pl) ==> (pl.indexed.len() + pl.normal.len() == conds.len()
            && (forall|k: int| 0 <= k < pl.indexed.len() ==> is_indexed(indexes, cols, (#[trigger] pl.indexed[k]).0))
            && (forall|k: int| 0 <= k < pl.normal.len() ==> !is_indexed(indexes, cols, (#[trigger] pl.normal[k]).0))),
{
    broadcast use vstd::seq_lib::group_filter_ensures;
    lemma_condition_columns_len(conds, cols);
    if let Ok(pairs) = condition_columns(conds, cols) {
        let pin = |p: (usize, ColumnView)| is_indexed(indexes, cols, p.0);
        let pout = |p: (usize, ColumnView)| !is_indexed(indexes, cols, p.0);
        lemma_filter_split_len(pairs, pin, pout);
        let a = pairs.filter(pin);
        let b = pairs.filter(pout);
        assert forall|k: int| 0 <= k < a.len() implies is_indexed(indexes, cols, (#[trigger] a[k]).0) by {
            assert(pin(a[k]));
        }
        assert forall|k: int| 0 <= k < b.len() implies !is_indexed(indexes, cols, (#[trigger] b[k]).0) by {
            assert(pout(b[k]));
        }
    }
}

} // verus!
