//! The queries that the parser accepts, written out as token sequences:
//! `SELECT`, then `COUNT(*)` or a comma-separated list of column names,
//! then `FROM` and a table name, then optionally `WHERE` and one or more
//! `name = 'text'` conditions.

use vstd::prelude::*;
use crate::parse::{
    ConditionView, ParseState, ParsedView, ProjectionView, QuerySection, conditions_from,
    conditions_ok, count_args_error, parse_from, parse_spec, projection_ok,
};
use crate::record::ColumnView;
use crate::tokenize::{Keyword, Symbol, TokenView};

verus! {

/// The tokens of a list of column names: the names, separated by commas.
pub open spec fn column_list_tokens(cs: Seq<Seq<char>>) -> Seq<TokenView> {
    Seq::new(
        if cs.len() == 0 { 0 } else { (2 * cs.len() - 1) as nat },
        |x: int| if x % 2 == 0 { TokenView::Ident(cs[x / 2]) } else { TokenView::Symbol(Symbol::Comma) },
    )
}

/// The tokens `COUNT ( * )`.
pub open spec fn count_tokens() -> Seq<TokenView> {
    seq![
        TokenView::Keyword(Keyword::Count),
        TokenView::Symbol(Symbol::LParen),
        TokenView::Symbol(Symbol::Star),
        TokenView::Symbol(Symbol::RParen),
    ]
}

/// The tokens that select `p`.
pub open spec fn projection_tokens(p: ProjectionView) -> Seq<TokenView> {
    match p {
        ProjectionView::Count => count_tokens(),
        ProjectionView::Columns(cs) => column_list_tokens(cs),
    }
}

/// The tokens of the conditions `cs`, each `name = 'text'`, one after the other.
pub open spec fn condition_tokens(cs: Seq<ConditionView>) -> Seq<TokenView> {
    Seq::new(3 * cs.len(), |x: int|
        if x % 3 == 0 {
            TokenView::Ident(cs[x / 3].column_name)
        } else if x % 3 == 1 {
            TokenView::Symbol(Symbol::Equal)
        } else {
            TokenView::StringLit(cs[x / 3].exp_value->Text_0)
        })
}

/// Nothing when there are no conditions; else `WHERE` and the conditions.
pub open spec fn where_tokens(cs: Seq<ConditionView>) -> Seq<TokenView> {
    if cs.len() == 0 {
        Seq::empty()
    } else {
        seq![TokenView::Keyword(Keyword::Where)] + condition_tokens(cs)
    }
}

/// The tokens of the query `p`.
pub open spec fn query_tokens(p: ParsedView) -> Seq<TokenView> {
    seq![TokenView::Keyword(Keyword::Select)] + projection_tokens(p.projection)
        + seq![TokenView::Keyword(Keyword::From), TokenView::Ident(p.table)] + where_tokens(p.conditions)
}

/// A query that tokens can spell: it selects at least one column, if it
/// selects columns, and its conditions compare with `=` to a text.
pub open spec fn spellable(p: ParsedView) -> bool {
    projection_ok(Some(p.projection)) && conditions_ok(p.conditions)
}

proof fn lemma_conditions_read(ts: Seq<TokenView>, base: nat, cs: Seq<ConditionView>, k: nat)
    requires
        conditions_ok(cs),
        k < cs.len(),
        ts.len() == base + 3 * cs.len(),
        forall|x: int| 0 <= x < 3 * cs.len() ==> ts[base + x] == #[trigger] condition_tokens(cs)[x],
    ensures
        conditions_from(ts, base + 3 * k) == Ok::<Seq<ConditionView>, crate::error::QueryErrorView>(cs.subrange(k as int, cs.len() as int)),
    decreases cs.len() - k,
{
    let i: int = (base + 3 * k) as int;
    let kk: int = k as int;
    let ct = condition_tokens(cs);
    assert(ts[i] == ct[3 * kk]);
    assert(ts[i + 1] == ct[3 * kk + 1]);
    assert(ts[i + 2] == ct[3 * kk + 2]);
    assert((3 * kk) / 3 == kk && (3 * kk) % 3 == 0);
    assert((3 * kk + 1) / 3 == kk && (3 * kk + 1) % 3 == 1);
    assert((3 * kk + 2) / 3 == kk && (3 * kk + 2) % 3 == 2);
    let c = cs[kk];
    assert(c.symbol == Symbol::Equal && c.exp_value is Text);
    let c2 = ConditionView {
        column_name: ts[i]->Ident_0,
        symbol: Symbol::Equal,
        exp_value: ColumnView::Text(ts[i + 2]->StringLit_0),
    };
    assert(c2 == c);
    if k + 1 < cs.len() {
        lemma_conditions_read(ts, base, cs, k + 1);
        assert(base + 3 * (k + 1) == i + 3);
        assert(seq![c] + cs.subrange(kk + 1, cs.len() as int) =~= cs.subrange(k as int, cs.len() as int));
    } else {
        assert(seq![c] =~= cs.subrange(k as int, cs.len() as int));
    }
}

/// The parser in the select clause, with the projection read.
pub open spec fn selected(p: ProjectionView, needs_column: bool) -> ParseState {
    ParseState { section: QuerySection::Select, projection: Some(p), needs_column, table: None }
}

proof fn lemma_tail(ts: Seq<TokenView>, p: ParsedView, j: nat)
    requires
        spellable(p),
        ts == query_tokens(p),
        j == 1 + projection_tokens(p.projection).len(),
    ensures
        parse_from(ts, j, selected(p.projection, false)) == Ok::<ParsedView, crate::error::QueryErrorView>(p),
{
    let st0 = selected(p.projection, false);
    let st1 = ParseState { section: QuerySection::From, ..st0 };
    let st2 = ParseState { table: Some(p.table), ..st1 };
    let jj = j as int;
    assert(ts[jj] == TokenView::Keyword(Keyword::From));
    assert(ts[jj + 1] == TokenView::Ident(p.table));
    assert(parse_from(ts, j, st0) == parse_from(ts, j + 1, st1));
    assert(parse_from(ts, j + 1, st1) == parse_from(ts, j + 2, st2));
    let cs = p.conditions;
    if cs.len() == 0 {
        assert(ts.len() == j + 2);
        assert(cs =~= Seq::<ConditionView>::empty());
    } else {
        let st3 = ParseState { section: QuerySection::Where, ..st2 };
        assert(ts[jj + 2] == TokenView::Keyword(Keyword::Where));
        assert(parse_from(ts, j + 2, st2) == parse_from(ts, j + 3, st3));
        assert forall|x: int| 0 <= x < 3 * cs.len() implies ts[(j + 3) + x] == #[trigger] condition_tokens(cs)[x] by {
            assert(ts[(j + 3) + x] == where_tokens(cs)[x + 1]);
        }
        lemma_conditions_read(ts, j + 3, cs, 0);
        assert(cs.subrange(0, cs.len() as int) =~= cs);
    }
}

proof fn lemma_columns_read(ts: Seq<TokenView>, p: ParsedView, cs: Seq<Seq<char>>, k: nat)
    requires
        p.projection == ProjectionView::Columns(cs),
        ts == query_tokens(p),
        1 <= k <= cs.len(),
    ensures
        parse_from(ts, 2 * k, selected(ProjectionView::Columns(cs.take(k as int)), false))
            == parse_from(ts, 2 * cs.len(), selected(ProjectionView::Columns(cs), false)),
    decreases cs.len() - k,
{
    let m = cs.len();
    if k == m {
        assert(cs.take(k as int) =~= cs);
    } else {
        let kk = k as int;
        let ct = column_list_tokens(cs);
        assert(ts[2 * kk] == ct[2 * kk - 1]);
        assert(ts[2 * kk + 1] == ct[2 * kk]);
        assert((2 * kk - 1) % 2 == 1);
        assert((2 * kk) % 2 == 0 && (2 * kk) / 2 == kk);
        let st0 = selected(ProjectionView::Columns(cs.take(kk)), false);
        let st1 = selected(ProjectionView::Columns(cs.take(kk)), true);
        let st2 = selected(ProjectionView::Columns(cs.take(kk + 1)), false);
        assert(cs.take(kk).push(cs[kk]) =~= cs.take(kk + 1));
        assert(parse_from(ts, 2 * k, st0) == parse_from(ts, 2 * k + 1, st1));
        assert(parse_from(ts, 2 * k + 1, st1) == parse_from(ts, 2 * k + 2, st2));
        lemma_columns_read(ts, p, cs, k + 1);
    }
}

/// Every query that tokens can spell parses back from its tokens.
proof fn lemma_query_parses(p: ParsedView)
    requires
        spellable(p),
    ensures
        parse_spec(query_tokens(p)) == Ok::<ParsedView, crate::error::QueryErrorView>(p),
{
    let ts = query_tokens(p);
    let st0 = ParseState { section: QuerySection::Unstarted, projection: None, needs_column: true, table: None };
    let st1 = ParseState { section: QuerySection::Select, ..st0 };
    assert(ts[0] == TokenView::Keyword(Keyword::Select));
    assert(parse_from(ts, 0, st0) == parse_from(ts, 1, st1));
    match p.projection {
        ProjectionView::Count => {
            assert(ts[1] == TokenView::Keyword(Keyword::Count));
            assert(ts[2] == TokenView::Symbol(Symbol::LParen));
            assert(ts[3] == TokenView::Symbol(Symbol::Star));
            assert(ts[4] == TokenView::Symbol(Symbol::RParen));
            assert(count_args_error(ts, 1) is None);
            assert(parse_from(ts, 1, st1) == parse_from(ts, 5, selected(ProjectionView::Count, false)));
            lemma_tail(ts, p, 5);
        },
        ProjectionView::Columns(cs) => {
            let ct = column_list_tokens(cs);
            assert(ts[1] == ct[0]);
            assert(ts[1] == TokenView::Ident(cs[0]));
            assert(Seq::<Seq<char>>::empty().push(cs[0]) =~= cs.take(1));
            assert(parse_from(ts, 1, st1) == parse_from(ts, 2, selected(ProjectionView::Columns(cs.take(1)), false)));
            lemma_columns_read(ts, p, cs, 1);
            lemma_tail(ts, p, 2 * cs.len());
        },
    }
}

/// The tokens that bring the parser from the start into the state `st`.
pub open spec fn state_tokens(st: ParseState) -> Seq<TokenView> {
    let select = seq![TokenView::Keyword(Keyword::Select)];
    match st.section {
        QuerySection::Unstarted => Seq::empty(),
        QuerySection::Select => match st.projection {
            None => select,
            Some(pr) => select + projection_tokens(pr)
                + (if st.needs_column { seq![TokenView::Symbol(Symbol::Comma)] } else { Seq::empty() }),
        },
        QuerySection::From => select + projection_tokens(st.projection->0) + seq![TokenView::Keyword(Keyword::From)]
            + match st.table {
                None => Seq::empty(),
                Some(t) => seq![TokenView::Ident(t)],
            },
        QuerySection::Where => select + projection_tokens(st.projection->0)
            + seq![TokenView::Keyword(Keyword::From), TokenView::Ident(st.table->0), TokenView::Keyword(Keyword::Where)],
    }
}

/// The states that the parser reaches from the start.
pub open spec fn state_reachable(st: ParseState) -> bool {
    projection_ok(st.projection) && match st.section {
        QuerySection::Unstarted => st.projection is None && st.needs_column && st.table is None,
        QuerySection::Select => st.table is None && (st.projection is None ==> st.needs_column)
            && (st.projection matches Some(ProjectionView::Count) ==> !st.needs_column),
        QuerySection::From => st.projection is Some && !st.needs_column,
        QuerySection::Where => st.projection is Some && !st.needs_column && st.table is Some,
    }
}

proof fn lemma_conditions_spell(ts: Seq<TokenView>, i: nat)
    ensures
        conditions_from(ts, i) matches Ok(cs) ==> cs.len() > 0 && i <= ts.len()
            && ts.subrange(i as int, ts.len() as int) =~= condition_tokens(cs),
    decreases ts.len() - i,
{
    if i + 3 < ts.len() {
        lemma_conditions_spell(ts, i + 3);
    }
    if let Ok(cs) = conditions_from(ts, i) {
        let ii = i as int;
        let c = cs[0];
        assert(ts[ii] is Ident && ts[ii + 1] == TokenView::Symbol(Symbol::Equal) && ts[ii + 2] is StringLit);
        let ct = condition_tokens(cs);
        assert(ct.len() == 3 * cs.len());
        if i + 3 >= ts.len() {
            assert(cs.len() == 1);
            assert forall|x: int| 0 <= x < 3 implies ct[x] == ts[ii + x] by {
                assert(x / 3 == 0);
            }
        } else {
            let rest = conditions_from(ts, i + 3)->Ok_0;
            assert(cs == seq![c] + rest);
            let rt = condition_tokens(rest);
            assert forall|x: int| 0 <= x < ct.len() implies ct[x] == ts[ii + x] by {
                if x >= 3 {
                    assert((x - 3) / 3 == x / 3 - 1 && (x - 3) % 3 == x % 3);
                    assert(ct[x] == rt[x - 3]);
                    assert(rt[x - 3] == ts.subrange(ii + 3, ts.len() as int)[x - 3]);
                } else {
                    assert(x / 3 == 0);
                }
            }
        }
    }
}

proof fn lemma_column_list_push(cs: Seq<Seq<char>>, x: Seq<char>)
    requires
        cs.len() > 0,
    ensures
        column_list_tokens(cs.push(x))
            =~= column_list_tokens(cs) + seq![TokenView::Symbol(Symbol::Comma), TokenView::Ident(x)],
{
    let a = column_list_tokens(cs.push(x));
    let b = column_list_tokens(cs) + seq![TokenView::Symbol(Symbol::Comma), TokenView::Ident(x)];
    assert(a.len() == b.len());
    assert forall|y: int| 0 <= y < a.len() implies a[y] == b[y] by {
        if y % 2 == 0 {
            assert(y / 2 <= cs.len());
            if y / 2 < cs.len() {
                assert(cs.push(x)[y / 2] == cs[y / 2]);
            } else {
                assert(y == 2 * cs.len());
            }
        }
    }
}

proof fn lemma_parse_spells(ts: Seq<TokenView>, i: nat, st: ParseState)
    requires
        state_reachable(st),
        i <= ts.len(),
        ts.subrange(0, i as int) == state_tokens(st),
    ensures
        parse_from(ts, i, st) matches Ok(p) ==> ts == query_tokens(p),
    decreases ts.len() - i,
{
    let ii = i as int;
    let n = ts.len() as int;
    if st.section == QuerySection::Where {
        lemma_conditions_spell(ts, i);
        if let Ok(cs) = conditions_from(ts, i) {
            let p = parse_from(ts, i, st)->Ok_0;
            assert(ts =~= ts.subrange(0, ii) + ts.subrange(ii, n));
            assert(query_tokens(p) =~= state_tokens(st) + condition_tokens(cs));
        }
    } else if i >= ts.len() {
        if let Ok(p) = parse_from(ts, i, st) {
            assert(ts =~= ts.subrange(0, ii));
            assert(p.conditions =~= Seq::<ConditionView>::empty());
            assert(query_tokens(p) =~= state_tokens(st));
        }
    } else {
        let t = ts[ii];
        assert(ts.subrange(0, ii + 1) =~= state_tokens(st).push(t));
        match st.section {
            QuerySection::Unstarted => {
                if let TokenView::Keyword(k) = t {
                    if let Ok(s) = st.section.spec_advance(k) {
                        let st1 = ParseState { section: s, ..st };
                        assert(state_tokens(st1) =~= state_tokens(st).push(t));
                        lemma_parse_spells(ts, i + 1, st1);
                    }
                }
            },
            QuerySection::Select => {
                if t == TokenView::Keyword(Keyword::Count) && st.projection is None {
                    if count_args_error(ts, i) is None {
                        let st1 = ParseState { projection: Some(ProjectionView::Count), needs_column: false, ..st };
                        assert(ts.subrange(0, ii + 4) =~= state_tokens(st1));
                        lemma_parse_spells(ts, i + 4, st1);
                    }
                } else if t is Ident && st.needs_column {
                    let x = t->Ident_0;
                    let cs = crate::parse::columns_of(st.projection);
                    let st1 = ParseState {
                        projection: Some(ProjectionView::Columns(cs.push(x))),
                        needs_column: false,
                        ..st
                    };
                    if cs.len() > 0 {
                        lemma_column_list_push(cs, x);
                        assert(state_tokens(st1) =~= state_tokens(st).push(t));
                    } else {
                        assert(cs.push(x) =~= seq![x]);
                        assert(column_list_tokens(seq![x]) =~= seq![TokenView::Ident(x)]);
                        assert(state_tokens(st1) =~= state_tokens(st).push(t));
                    }
                    lemma_parse_spells(ts, i + 1, st1);
                } else if t == TokenView::Symbol(Symbol::Comma) && !st.needs_column
                    && st.projection matches Some(ProjectionView::Columns(_)) {
                    let st1 = ParseState { needs_column: true, ..st };
                    assert(state_tokens(st1) =~= state_tokens(st).push(t));
                    lemma_parse_spells(ts, i + 1, st1);
                } else if t is Keyword && !st.needs_column {
                    if let Ok(s) = st.section.spec_advance(t->Keyword_0) {
                        let st1 = ParseState { section: s, ..st };
                        assert(state_tokens(st1) =~= state_tokens(st).push(t));
                        lemma_parse_spells(ts, i + 1, st1);
                    }
                }
            },
            _ => {
                if t is Ident && st.table is None {
                    let st1 = ParseState { table: Some(t->Ident_0), ..st };
                    assert(state_tokens(st1) =~= state_tokens(st).push(t));
                    lemma_parse_spells(ts, i + 1, st1);
                } else if t is Keyword && st.table is Some {
                    if let Ok(s) = st.section.spec_advance(t->Keyword_0) {
                        let st1 = ParseState { section: s, ..st };
                        assert(state_tokens(st1) =~= state_tokens(st).push(t));
                        lemma_parse_spells(ts, i + 1, st1);
                    }
                }
            },
        }
    }
}

/// The parser accepts exactly the token sequences that spell a query, and
/// gives back the query they spell: `SELECT`, then `COUNT ( * )` or one or
/// more column names separated by `,`, then `FROM` and a table name, then,
/// if there are conditions, `WHERE` and each condition as a column name,
/// `=` and a string literal.
pub proof fn lemma_parse_grammar(ts: Seq<TokenView>, p: ParsedView)
    ensures
        parse_spec(ts) == Ok::<ParsedView, crate::error::QueryErrorView>(p) <==> (spellable(p) && ts == query_tokens(p)),
{
    if spellable(p) && ts == query_tokens(p) {
        lemma_query_parses(p);
    }
    if parse_spec(ts) == Ok::<ParsedView, crate::error::QueryErrorView>(p) {
        crate::parse::lemma_columns_not_empty(ts);
        let st0 = ParseState { section: QuerySection::Unstarted, projection: None, needs_column: true, table: None };
        assert(ts.subrange(0, 0) =~= state_tokens(st0));
        lemma_parse_spells(ts, 0, st0);
    }
}

} // verus!
