//! Parsing a token list into a query: `SELECT <columns | COUNT(*)> FROM
//! <table> [WHERE <column> = '<text>' ...]`.

use vstd::prelude::*;
use crate::error::{QueryError, QueryErrorView};
use crate::record::{Column, ColumnView};
use crate::tokenize::{Ident, Keyword, Symbol, Token, TokenView};

verus! {

/// Used for parsing, during iteration to identify what is the current query section.
#[derive(Debug, Clone, Copy, PartialEq, Eq, Structural)]
pub enum QuerySection {
    Unstarted,
    Select,
    From,
    Where,
}

impl Default for QuerySection {
    fn default() -> (r: QuerySection)
        ensures
            r == QuerySection::Unstarted,
    {
        QuerySection::Unstarted
    }
}

/// The error "expected `expected`, found `found`".
pub fn unexpected(expected: &'static str, found: Token) -> (r: QueryError)
    ensures
        r@ == (QueryErrorView::UnexpectedToken { expected: expected@, found: found@ }),
{
    QueryError::UnexpectedToken { expected, found }
}

/// The view of the error "expected `expected`, found `found`".
pub open spec fn unexpected_view(expected: Seq<char>, found: TokenView) -> QueryErrorView {
    QueryErrorView::UnexpectedToken { expected, found }
}

impl QuerySection {
    /// The section's name.
    pub fn name(self) -> (r: &'static str)
        ensures
            r@ == (match self {
                QuerySection::Unstarted => "Unstarted"@,
                QuerySection::Select => "Select"@,
                QuerySection::From => "From"@,
                QuerySection::Where => "Where"@,
            }),
    {
        match self {
            QuerySection::Unstarted => "Unstarted",
            QuerySection::Select => "Select",
            QuerySection::From => "From",
            QuerySection::Where => "Where",
        }
    }

    /// The section that `keyword` opens after this one, or the error.
    pub open spec fn spec_advance(self, keyword: Keyword) -> Result<QuerySection, QueryErrorView> {
        match self {
            QuerySection::Unstarted => if keyword == Keyword::Select {
                Ok(QuerySection::Select)
            } else {
                Err(unexpected_view(Keyword::Select.spec_text(), TokenView::Keyword(keyword)))
            },
            QuerySection::Select => if keyword == Keyword::From {
                Ok(QuerySection::From)
            } else {
                Err(unexpected_view(Keyword::From.spec_text(), TokenView::Keyword(keyword)))
            },
            QuerySection::From => if keyword == Keyword::Where {
                Ok(QuerySection::Where)
            } else {
                Err(unexpected_view(Keyword::Where.spec_text(), TokenView::Keyword(keyword)))
            },
            QuerySection::Where => Err(unexpected_view("end of query"@, TokenView::Keyword(keyword))),
        }
    }

    /// Moves to the next clause if `keyword` is the one that opens it.
    pub fn advance(self, keyword: Keyword) -> (r: Result<QuerySection, QueryError>)
        ensures
            match self.spec_advance(keyword) {
                Ok(s) => r matches Ok(t) && t == s,
                Err(e) => r matches Err(f) && f@ == e,
            },
    {
        let (expected, next) = match self {
            QuerySection::Unstarted => (Keyword::Select, QuerySection::Select),
            QuerySection::Select => (Keyword::From, QuerySection::From),
            QuerySection::From => (Keyword::Where, QuerySection::Where),
            QuerySection::Where => {
                return Err(unexpected("end of query", Token::Keyword(keyword)));
            },
        };
        if keyword != expected {
            return Err(unexpected(expected.as_str(), Token::Keyword(keyword)));
        }
        Ok(next)
    }
}

/// What a query selects.
#[derive(Debug)]
pub enum Projection {
    Count,
    Columns(Vec<Ident>),
}

/// What a query selects, its names as characters.
pub enum ProjectionView {
    Count,
    Columns(Seq<Seq<char>>),
}

impl View for Projection {
    type V = ProjectionView;

    open spec fn view(&self) -> ProjectionView {
        match self {
            Projection::Count => ProjectionView::Count,
            Projection::Columns(c) => ProjectionView::Columns(c.deep_view()),
        }
    }
}

/// One `column = 'text'` condition of a `WHERE` clause.
#[derive(Debug)]
pub struct Condition {
    pub column_name: Ident,
    pub _symbol: Symbol,
    pub exp_value: Column,
}

pub struct ConditionView {
    pub column_name: Seq<char>,
    pub symbol: Symbol,
    pub exp_value: ColumnView,
}

impl View for Condition {
    type V = ConditionView;

    open spec fn view(&self) -> ConditionView {
        ConditionView { column_name: self.column_name@, symbol: self._symbol, exp_value: self.exp_value@ }
    }
}

impl DeepView for Condition {
    type V = ConditionView;

    open spec fn deep_view(&self) -> ConditionView {
        self@
    }
}

impl Condition {
    pub fn new(column_name: Ident, _symbol: Symbol, exp_value: Column) -> (r: Condition)
        ensures
            r.column_name == column_name,
            r._symbol == _symbol,
            r.exp_value == exp_value,
    {
        Condition { column_name, _symbol, exp_value }
    }
}

/// A parsed query.
#[derive(Debug)]
pub struct ParsedTokens {
    pub projection: Projection,
    pub table: Ident,
    pub conditions: Vec<Condition>,
}

pub struct ParsedView {
    pub projection: ProjectionView,
    pub table: Seq<char>,
    pub conditions: Seq<ConditionView>,
}

impl View for ParsedTokens {
    type V = ParsedView;

    open spec fn view(&self) -> ParsedView {
        ParsedView {
            projection: self.projection@,
            table: self.table@,
            conditions: self.conditions.deep_view(),
        }
    }
}

/// Where the parser stands between two tokens.
pub struct ParseState {
    pub section: QuerySection,
    pub projection: Option<ProjectionView>,
    pub needs_column: bool,
    pub table: Option<Seq<char>>,
}

/// The columns selected so far.
pub open spec fn columns_of(p: Option<ProjectionView>) -> Seq<Seq<char>> {
    match p {
        Some(ProjectionView::Columns(c)) => c,
        _ => Seq::empty(),
    }
}

/// The error, if any, of expecting the symbol `sym` at position `j` of `ts`.
pub open spec fn expect_at(ts: Seq<TokenView>, j: nat, sym: Symbol, expected: Seq<char>) -> Option<QueryErrorView> {
    if j >= ts.len() {
        Some(QueryErrorView::UnexpectedEnd { expected })
    } else if ts[j as int] == TokenView::Symbol(sym) {
        None
    } else {
        Some(unexpected_view(expected, ts[j as int]))
    }
}

/// The error, if any, in the `(*)` after `COUNT` at position `i`.
pub open spec fn count_args_error(ts: Seq<TokenView>, i: nat) -> Option<QueryErrorView> {
    match expect_at(ts, i + 1, Symbol::LParen, "`(` after COUNT"@) {
        Some(e) => Some(e),
        None => match expect_at(ts, i + 2, Symbol::Star, "`*` in COUNT(*)"@) {
            Some(e) => Some(e),
            None => expect_at(ts, i + 3, Symbol::RParen, "`)` after COUNT(*"@),
        },
    }
}

/// The conditions of a `WHERE` clause from position `i` of `ts` to its end.
pub open spec fn conditions_from(ts: Seq<TokenView>, i: nat) -> Result<Seq<ConditionView>, QueryErrorView>
    decreases ts.len() - i,
{
    if i >= ts.len() {
        Err(QueryErrorView::UnexpectedEnd { expected: "a column name"@ })
    } else if !(ts[i as int] is Ident) {
        Err(unexpected_view("a column name"@, ts[i as int]))
    } else {
        match expect_at(ts, i + 1, Symbol::Equal, "`=`"@) {
            Some(e) => Err(e),
            None => if i + 2 >= ts.len() {
                Err(QueryErrorView::UnexpectedEnd { expected: "a string literal"@ })
            } else if !(ts[i + 2int] is StringLit) {
                Err(unexpected_view("a string literal"@, ts[i + 2int]))
            } else {
                let c = ConditionView {
                    column_name: ts[i as int]->Ident_0,
                    symbol: Symbol::Equal,
                    exp_value: ColumnView::Text(ts[i + 2int]->StringLit_0),
                };
                if i + 3 >= ts.len() {
                    Ok(seq![c])
                } else {
                    match conditions_from(ts, i + 3) {
                        Ok(cs) => Ok(seq![c] + cs),
                        Err(e) => Err(e),
                    }
                }
            },
        }
    }
}

/// The query once the tokens are used up with the parser in state `st`
/// and the conditions `cs` read.
pub open spec fn finish(st: ParseState, cs: Seq<ConditionView>) -> Result<ParsedView, QueryErrorView> {
    match st.projection {
        None => Err(QueryErrorView::UnexpectedEnd { expected: "a column name or COUNT(*)"@ }),
        Some(p) => match st.table {
            None => Err(QueryErrorView::UnexpectedEnd { expected: "FROM <table>"@ }),
            Some(t) => Ok(ParsedView { projection: p, table: t, conditions: cs }),
        },
    }
}

/// The query that the tokens of `ts` from position `i` on complete, with
/// the parser in state `st`.
pub open spec fn parse_from(ts: Seq<TokenView>, i: nat, st: ParseState) -> Result<ParsedView, QueryErrorView>
    decreases ts.len() - i,
{
    if st.section == QuerySection::Where {
        match conditions_from(ts, i) {
            Ok(cs) => finish(st, cs),
            Err(e) => Err(e),
        }
    } else if i >= ts.len() {
        finish(st, Seq::empty())
    } else {
        let t = ts[i as int];
        match st.section {
            QuerySection::Unstarted => match t {
                TokenView::Keyword(k) => match st.section.spec_advance(k) {
                    Ok(s) => parse_from(ts, i + 1, ParseState { section: s, ..st }),
                    Err(e) => Err(e),
                },
                _ => Err(unexpected_view("SELECT"@, t)),
            },
            QuerySection::Select => {
                if t == TokenView::Keyword(Keyword::Count) && st.projection is None {
                    match count_args_error(ts, i) {
                        Some(e) => Err(e),
                        None => parse_from(ts, i + 4, ParseState {
                            projection: Some(ProjectionView::Count),
                            needs_column: false,
                            ..st
                        }),
                    }
                } else if t is Ident && st.needs_column {
                    parse_from(ts, i + 1, ParseState {
                        projection: Some(ProjectionView::Columns(columns_of(st.projection).push(t->Ident_0))),
                        needs_column: false,
                        ..st
                    })
                } else if t == TokenView::Symbol(Symbol::Comma) && !st.needs_column
                    && st.projection matches Some(ProjectionView::Columns(_)) {
                    parse_from(ts, i + 1, ParseState { needs_column: true, ..st })
                } else if t is Keyword && !st.needs_column {
                    match st.section.spec_advance(t->Keyword_0) {
                        Ok(s) => parse_from(ts, i + 1, ParseState { section: s, ..st }),
                        Err(e) => Err(e),
                    }
                } else if st.projection is None {
                    Err(unexpected_view("a column name or COUNT(*)"@, t))
                } else if st.needs_column {
                    Err(unexpected_view("a column name"@, t))
                } else if st.projection matches Some(ProjectionView::Count) {
                    Err(unexpected_view("FROM"@, t))
                } else {
                    Err(unexpected_view("`,` or FROM"@, t))
                }
            },
            _ => {
                if t is Ident && st.table is None {
                    parse_from(ts, i + 1, ParseState { table: Some(t->Ident_0), ..st })
                } else if t is Keyword && st.table is Some {
                    match st.section.spec_advance(t->Keyword_0) {
                        Ok(s) => parse_from(ts, i + 1, ParseState { section: s, ..st }),
                        Err(e) => Err(e),
                    }
                } else if st.table is None {
                    Err(unexpected_view("a table name"@, t))
                } else {
                    Err(unexpected_view("WHERE or end of query"@, t))
                }
            },
        }
    }
}

/// The query that the tokens `ts` spell.
pub open spec fn parse_spec(ts: Seq<TokenView>) -> Result<ParsedView, QueryErrorView> {
    parse_from(ts, 0, ParseState {
        section: QuerySection::Unstarted,
        projection: None,
        needs_column: true,
        table: None,
    })
}


/// The parser's state as a value.
pub open spec fn state_of(
    section: QuerySection,
    projection: Option<Projection>,
    needs_column: bool,
    table: Option<Ident>,
) -> ParseState {
    ParseState {
        section,
        projection: match projection {
            Some(p) => Some(p@),
            None => None,
        },
        needs_column,
        table: match table {
            Some(t) => Some(t@),
            None => None,
        },
    }
}

/// `r` is the query or the error that `s` describes.
pub open spec fn parsed_outcome(r: Result<ParsedTokens, QueryError>, s: Result<ParsedView, QueryErrorView>) -> bool {
    match (r, s) {
        (Ok(p), Ok(v)) => p@ == v,
        (Err(e), Err(f)) => e@ == f,
        _ => false,
    }
}

/// Checks that token `j` is the symbol `symbol`.
pub fn expect_symbol(tokens: &Vec<Token>, j: usize, symbol: Symbol, expected: &'static str) -> (r: Result<(), QueryError>)
    ensures
        match expect_at(tokens.deep_view(), j as nat, symbol, expected@) {
            Some(e) => r matches Err(f) && f@ == e,
            None => r is Ok,
        },
{
    if j >= tokens.len() {
        return Err(QueryError::UnexpectedEnd { expected });
    }
    let t = &tokens[j];
    assert(tokens.deep_view()[j as int] == t@);
    match t {
        Token::Symbol(s) => {
            if *s == symbol {
                return Ok(());
            }
        },
        _ => {},
    }
    Err(unexpected(expected, t.duplicate()))
}

/// Parses the conditions of a `WHERE` clause, from token `start` to the end.
fn parse_conditions(tokens: &Vec<Token>, start: usize) -> (r: Result<Vec<Condition>, QueryError>)
    requires
        start <= tokens@.len(),
    ensures
        match conditions_from(tokens.deep_view(), start as nat) {
            Ok(cs) => r matches Ok(v) && v.deep_view() == cs,
            Err(e) => r matches Err(f) && f@ == e,
        },
{
    let ghost ts = tokens.deep_view();
    let n = tokens.len();
    let mut conds: Vec<Condition> = Vec::new();
    let mut i = start;
    loop
        invariant
            n == tokens@.len() == ts.len(),
            ts == tokens.deep_view(),
            i <= n,
            conditions_from(ts, start as nat) == match conditions_from(ts, i as nat) {
                Ok(cs) => Ok(conds.deep_view() + cs),
                Err(e) => Err::<Seq<ConditionView>, QueryErrorView>(e),
            },
        decreases n - i,
    {
        if i >= n {
            return Err(QueryError::UnexpectedEnd { expected: "a column name" });
        }
        let t = &tokens[i];
        assert(ts[i as int] == t@);
        let name = match t {
            Token::Ident(x) => x.duplicate(),
            _ => {
                return Err(unexpected("a column name", t.duplicate()));
            },
        };
        expect_symbol(tokens, i + 1, Symbol::Equal, "`=`")?;
        if i + 2 >= n {
            return Err(QueryError::UnexpectedEnd { expected: "a string literal" });
        }
        let v = &tokens[i + 2];
        assert(ts[i + 2] == v@);
        let value = match v {
            Token::StringLit(lit) => Column::Text(lit.0.clone()),
            _ => {
                return Err(unexpected("a string literal", v.duplicate()));
            },
        };
        let c = Condition::new(name, Symbol::Equal, value);
        let ghost before = conds.deep_view();
        conds.push(c);
        i = i + 3;
        proof {
            assert(conds.deep_view() == before + seq![c@]);
            match conditions_from(ts, i as nat) {
                Ok(cs) => { assert(before + (seq![c@] + cs) == conds.deep_view() + cs); },
                Err(e) => {},
            }
        }
        if i >= n {
            proof {
                assert(conds.deep_view() == before + seq![c@]);
            }
            return Ok(conds);
        }
    }
}

/// Parses the tokens of a query.
pub fn parse_query(tokens: Vec<Token>) -> (r: Result<ParsedTokens, QueryError>)
    ensures
        parsed_outcome(r, parse_spec(tokens.deep_view())),
{
    let ghost ts = tokens.deep_view();
    let n = tokens.len();
    let mut section = QuerySection::default();
    let mut projection: Option<Projection> = None;
    let mut needs_column = true;
    let mut table: Option<Ident> = None;
    let mut i: usize = 0;
    while i < n && section != QuerySection::Where
        invariant
            n == tokens@.len() == ts.len(),
            ts == tokens.deep_view(),
            i <= n,
            parse_spec(ts) == parse_from(ts, i as nat, state_of(section, projection, needs_column, table)),
        decreases n - i,
    {
        let token = &tokens[i];
        assert(ts[i as int] == token@);
        let ghost st = state_of(section, projection, needs_column, table);
        match section {
            QuerySection::Unstarted => {
                match token {
                    Token::Keyword(k) => {
                        section = section.advance(*k)?;
                    },
                    _ => {
                        return Err(unexpected("SELECT", token.duplicate()));
                    },
                }
                i = i + 1;
            },
            QuerySection::Select => {
                let (is_count, is_ident, is_comma, is_keyword) = match token {
                    Token::Keyword(Keyword::Count) => (true, false, false, true),
                    Token::Keyword(_) => (false, false, false, true),
                    Token::Ident(_) => (false, true, false, false),
                    Token::Symbol(Symbol::Comma) => (false, false, true, false),
                    _ => (false, false, false, false),
                };
                let is_columns = match &projection {
                    Some(Projection::Columns(_)) => true,
                    _ => false,
                };
                let is_count_projection = match &projection {
                    Some(Projection::Count) => true,
                    _ => false,
                };
                if is_count && projection.is_none() {
                    expect_symbol(&tokens, i + 1, Symbol::LParen, "`(` after COUNT")?;
                    expect_symbol(&tokens, i + 2, Symbol::Star, "`*` in COUNT(*)")?;
                    expect_symbol(&tokens, i + 3, Symbol::RParen, "`)` after COUNT(*")?;
                    projection = Some(Projection::Count);
                    needs_column = false;
                    i = i + 4;
                } else if is_ident && needs_column {
                    let ident = match token {
                        Token::Ident(x) => x.duplicate(),
                        _ => { proof { assert(false); } Ident(String::new()) },
                    };
                    let mut cols = match projection {
                        Some(Projection::Columns(c)) => c,
                        _ => Vec::new(),
                    };
                    let ghost before = cols.deep_view();
                    assert(before == columns_of(st.projection));
                    cols.push(ident);
                    assert(cols.deep_view() == before.push(token@->Ident_0));
                    projection = Some(Projection::Columns(cols));
                    needs_column = false;
                    i = i + 1;
                } else if is_comma && !needs_column && is_columns {
                    needs_column = true;
                    i = i + 1;
                } else if is_keyword && !needs_column {
                    let k = match token {
                        Token::Keyword(k) => *k,
                        _ => { proof { assert(false); } Keyword::Select },
                    };
                    section = section.advance(k)?;
                    i = i + 1;
                } else if projection.is_none() {
                    return Err(unexpected("a column name or COUNT(*)", token.duplicate()));
                } else if needs_column {
                    return Err(unexpected("a column name", token.duplicate()));
                } else if is_count_projection {
                    return Err(unexpected("FROM", token.duplicate()));
                } else {
                    return Err(unexpected("`,` or FROM", token.duplicate()));
                }
            },
            _ => {
                let (is_ident, is_keyword) = match token {
                    Token::Keyword(_) => (false, true),
                    Token::Ident(_) => (true, false),
                    _ => (false, false),
                };
                if is_ident && table.is_none() {
                    let ident = match token {
                        Token::Ident(x) => x.duplicate(),
                        _ => { proof { assert(false); } Ident(String::new()) },
                    };
                    table = Some(ident);
                    i = i + 1;
                } else if is_keyword && table.is_some() {
                    let k = match token {
                        Token::Keyword(k) => *k,
                        _ => { proof { assert(false); } Keyword::Select },
                    };
                    section = section.advance(k)?;
                    i = i + 1;
                } else if table.is_none() {
                    return Err(unexpected("a table name", token.duplicate()));
                } else {
                    return Err(unexpected("WHERE or end of query", token.duplicate()));
                }
            },
        }
    }
    let ghost st = state_of(section, projection, needs_column, table);
    let conditions = if section == QuerySection::Where {
        parse_conditions(&tokens, i)?
    } else {
        let v: Vec<Condition> = Vec::new();
        assert(v.deep_view() == Seq::<ConditionView>::empty());
        v
    };
    assert(parse_spec(ts) == finish(st, conditions.deep_view()));
    let projection = match projection {
        Some(p) => p,
        None => {
            return Err(QueryError::UnexpectedEnd { expected: "a column name or COUNT(*)" });
        },
    };
    let table = match table {
        Some(t) => t,
        None => {
            return Err(QueryError::UnexpectedEnd { expected: "FROM <table>" });
        },
    };
    Ok(ParsedTokens { projection, table, conditions })
}


/// Whether a projection, if there is one, names at least one column.
pub open spec fn projection_ok(p: Option<ProjectionView>) -> bool {
    p matches Some(ProjectionView::Columns(c)) ==> c.len() > 0
}

/// Whether every condition compares with `=` to a text.
pub open spec fn conditions_ok(cs: Seq<ConditionView>) -> bool {
    forall|k: int| 0 <= k < cs.len() ==> (#[trigger] cs[k]).symbol == Symbol::Equal && cs[k].exp_value is Text
}

proof fn lemma_conditions_from_ok(ts: Seq<TokenView>, i: nat)
    ensures
        conditions_from(ts, i) matches Ok(cs) ==> conditions_ok(cs),
    decreases ts.len() - i,
{
    if i + 3 < ts.len() {
        lemma_conditions_from_ok(ts, i + 3);
    }
    if let Ok(cs) = conditions_from(ts, i) {
        assert forall|k: int| 0 <= k < cs.len() implies (#[trigger] cs[k]).symbol == Symbol::Equal && cs[k].exp_value is Text by {
            if k > 0 {
                let rest = conditions_from(ts, i + 3)->Ok_0;
                assert(cs[k] == rest[k - 1]);
            }
        }
    }
}

proof fn lemma_parse_from_projection(ts: Seq<TokenView>, i: nat, st: ParseState)
    requires
        projection_ok(st.projection),
    ensures
        parse_from(ts, i, st) matches Ok(p) ==> projection_ok(Some(p.projection)) && conditions_ok(p.conditions),
    decreases ts.len() - i,
{
    if st.section == QuerySection::Where {
        lemma_conditions_from_ok(ts, i);
    } else if i >= ts.len() {
    } else {
        let t = ts[i as int];
        match st.section {
            QuerySection::Unstarted => {
                if let TokenView::Keyword(k) = t {
                    if let Ok(s) = st.section.spec_advance(k) {
                        lemma_parse_from_projection(ts, i + 1, ParseState { section: s, ..st });
                    }
                }
            },
            QuerySection::Select => {
                if t == TokenView::Keyword(Keyword::Count) && st.projection is None {
                    if count_args_error(ts, i) is None {
                        lemma_parse_from_projection(ts, i + 4, ParseState {
                            projection: Some(ProjectionView::Count),
                            needs_column: false,
                            ..st
                        });
                    }
                } else if t is Ident && st.needs_column {
                    lemma_parse_from_projection(ts, i + 1, ParseState {
                        projection: Some(ProjectionView::Columns(columns_of(st.projection).push(t->Ident_0))),
                        needs_column: false,
                        ..st
                    });
                } else if t == TokenView::Symbol(Symbol::Comma) && !st.needs_column
                    && st.projection matches Some(ProjectionView::Columns(_)) {
                    lemma_parse_from_projection(ts, i + 1, ParseState { needs_column: true, ..st });
                } else if t is Keyword && !st.needs_column {
                    if let Ok(s) = st.section.spec_advance(t->Keyword_0) {
                        lemma_parse_from_projection(ts, i + 1, ParseState { section: s, ..st });
                    }
                }
            },
            _ => {
                if t is Ident && st.table is None {
                    lemma_parse_from_projection(ts, i + 1, ParseState { table: Some(t->Ident_0), ..st });
                } else if t is Keyword && st.table is Some {
                    if let Ok(s) = st.section.spec_advance(t->Keyword_0) {
                        lemma_parse_from_projection(ts, i + 1, ParseState { section: s, ..st });
                    }
                }
            },
        }
    }
}

/// A parsed query that selects columns names at least one, and each of
/// its conditions compares a column with `=` to a text.
pub proof fn lemma_columns_not_empty(ts: Seq<TokenView>)
    ensures
        parse_spec(ts) matches Ok(p) ==> (p.projection matches ProjectionView::Columns(c) ==> c.len() > 0),
        parse_spec(ts) matches Ok(p) ==> conditions_ok(p.conditions),
{
    lemma_parse_from_projection(ts, 0, ParseState {
        section: QuerySection::Unstarted,
        projection: None,
        needs_column: true,
        table: None,
    });
}

} // verus!
