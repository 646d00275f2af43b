//! Splitting SQL text into tokens.
//!
//! Identifiers are case-insensitive and kept lower-cased; string literals are
//! kept exactly as written.

use vstd::prelude::*;
use crate::error::{QueryError, QueryErrorView};
use crate::text::{chars_of, string_from_chars, is_whitespace, skip_ws, lemma_skip_ws, skip_whitespace};

verus! {

/// The keywords of the dialect.
#[derive(Copy, Clone, Debug, PartialEq, Eq, Structural)]
pub enum Keyword {
    Select,
    From,
    Where,
    Count,
}

/// The symbols of the dialect.
#[derive(Copy, Clone, Debug, PartialEq, Eq, Structural)]
pub enum Symbol {
    Comma,
    Equal,
    LParen,
    RParen,
    Star,
}

/// A string literal, the text between its quotes exactly as written.
#[derive(Debug, PartialEq, Eq)]
pub struct StringLit(pub String);

/// An identifier, lower-cased.
#[derive(Debug, Clone, Hash)]
pub struct Ident(pub String);

/// A token of the dialect.
#[derive(Debug, PartialEq, Eq)]
pub enum Token {
    Keyword(Keyword),
    Ident(Ident),
    StringLit(StringLit),
    Symbol(Symbol),
}

/// A token, its text as characters.
pub enum TokenView {
    Keyword(Keyword),
    Ident(Seq<char>),
    StringLit(Seq<char>),
    Symbol(Symbol),
}

impl View for StringLit {
    type V = Seq<char>;

    open spec fn view(&self) -> Seq<char> {
        self.0@
    }
}

impl View for Ident {
    type V = Seq<char>;

    open spec fn view(&self) -> Seq<char> {
        self.0@
    }
}

impl DeepView for Ident {
    type V = Seq<char>;

    open spec fn deep_view(&self) -> Seq<char> {
        self.0@
    }
}

impl View for Token {
    type V = TokenView;

    open spec fn view(&self) -> TokenView {
        match self {
            Token::Keyword(k) => TokenView::Keyword(*k),
            Token::Ident(i) => TokenView::Ident(i@),
            Token::StringLit(s) => TokenView::StringLit(s@),
            Token::Symbol(s) => TokenView::Symbol(*s),
        }
    }
}

impl DeepView for Token {
    type V = TokenView;

    open spec fn deep_view(&self) -> TokenView {
        self@
    }
}

impl PartialEq for Ident {
    fn eq(&self, other: &Ident) -> (r: bool) {
        self.0 == other.0
    }
}

impl vstd::std_specs::cmp::PartialEqSpecImpl for Ident {
    open spec fn obeys_eq_spec() -> bool {
        true
    }

    open spec fn eq_spec(&self, other: &Ident) -> bool {
        self@ == other@
    }
}

impl Eq for Ident {
}

impl Symbol {
    /// How error messages name the symbol.
    pub open spec fn spec_name(self) -> Seq<char> {
        match self {
            Symbol::Comma => "comma symbol"@,
            Symbol::Equal => "equal symbol"@,
            Symbol::LParen => "lef paren symbol"@,
            Symbol::RParen => "right paren symbol"@,
            Symbol::Star => "star symbol"@,
        }
    }

    /// How error messages name the symbol.
    pub fn name(self) -> (r: &'static str)
        ensures
            r@ == self.spec_name(),
    {
        match self {
            Symbol::Comma => "comma symbol",
            Symbol::Equal => "equal symbol",
            Symbol::LParen => "lef paren symbol",
            Symbol::RParen => "right paren symbol",
            Symbol::Star => "star symbol",
        }
    }
}

/// How error messages show a token: keywords upper-cased, identifiers as
/// they are, string literals in quotes, symbols by name.
pub open spec fn token_text(t: TokenView) -> Seq<char> {
    match t {
        TokenView::Keyword(k) => k.spec_text(),
        TokenView::Ident(i) => i,
        TokenView::StringLit(s) => seq!['\''] + s + seq!['\''],
        TokenView::Symbol(s) => s.spec_name(),
    }
}

impl Token {
    /// How error messages show the token.
    pub fn to_text(&self) -> (r: String)
        ensures
            r@ == token_text(self@),
    {
        match self {
            Token::Keyword(k) => {
                let cs = chars_of(k.as_str());
                string_from_chars(cs.as_slice())
            },
            Token::Ident(i) => i.0.clone(),
            Token::StringLit(s) => {
                let mut cs: Vec<char> = Vec::new();
                cs.push('\'');
                let mut inner = chars_of(s.0.as_str());
                cs.append(&mut inner);
                cs.push('\'');
                string_from_chars(cs.as_slice())
            },
            Token::Symbol(s) => {
                let cs = chars_of(s.name());
                string_from_chars(cs.as_slice())
            },
        }
    }

    /// A copy of this token.
    pub fn duplicate(&self) -> (r: Token)
        ensures
            r@ == self@,
    {
        match self {
            Token::Keyword(k) => Token::Keyword(*k),
            Token::Ident(i) => Token::Ident(i.duplicate()),
            Token::StringLit(s) => Token::StringLit(StringLit(s.0.clone())),
            Token::Symbol(s) => Token::Symbol(*s),
        }
    }
}

impl StringLit {
    pub fn into_inner(self) -> (r: String)
        ensures
            r@ == self@,
    {
        self.0
    }
}

/// `c` with ASCII upper-case letters mapped to lower case.
pub open spec fn ascii_lower(c: char) -> char {
    if 'A' <= c <= 'Z' { ((c as u32) + 32) as char } else { c }
}

/// `s` with ASCII upper-case letters mapped to lower case.
pub open spec fn lower(s: Seq<char>) -> Seq<char> {
    s.map_values(|c: char| ascii_lower(c))
}

fn lower_char(c: char) -> (r: char)
    ensures
        r == ascii_lower(c),
{
    if 'A' <= c && c <= 'Z' {
        ((c as u8) + 32) as char
    } else {
        c
    }
}

/// The ASCII-lower-cased copy of `cs`.
pub fn lower_chars(cs: &[char]) -> (r: Vec<char>)
    ensures
        r@ == lower(cs@),
{
    let mut r: Vec<char> = Vec::new();
    let mut i: usize = 0;
    while i < cs.len()
        invariant
            i <= cs@.len(),
            r@ == lower(cs@.take(i as int)),
        decreases cs@.len() - i,
    {
        r.push(lower_char(cs[i]));
        i = i + 1;
        proof {
            assert(r@ =~= lower(cs@.take(i as int)));
        }
    }
    proof {
        assert(cs@.take(cs@.len() as int) == cs@);
    }
    r
}

/// Whether `a` and `b` hold the same characters.
pub fn chars_eq(a: &[char], b: &[char]) -> (r: bool)
    ensures
        r == (a@ == b@),
{
    if a.len() != b.len() {
        return false;
    }
    let mut i: usize = 0;
    while i < a.len()
        invariant
            i <= a@.len() == b@.len(),
            a@.take(i as int) == b@.take(i as int),
        decreases a@.len() - i,
    {
        if a[i] != b[i] {
            return false;
        }
        i = i + 1;
        proof {
            assert(a@.take(i as int) =~= b@.take(i as int));
        }
    }
    proof {
        assert(a@.take(a@.len() as int) == a@);
        assert(b@.take(b@.len() as int) == b@);
    }
    true
}

impl Ident {
    /// An identifier for `value`, lower-cased.
    pub fn new(value: &str) -> (r: Ident)
        ensures
            r@ == lower(value@),
    {
        let cs = chars_of(value);
        Ident::from_chars(cs.as_slice())
    }

    /// An identifier for the characters `cs`, lower-cased.
    pub fn from_chars(cs: &[char]) -> (r: Ident)
        ensures
            r@ == lower(cs@),
    {
        let l = lower_chars(cs);
        Ident(string_from_chars(l.as_slice()))
    }

    pub fn as_str(&self) -> (r: &str)
        ensures
            r@ == self@,
    {
        self.0.as_str()
    }

    /// Whether the two identifiers are the same.
    pub fn same(&self, other: &Ident) -> (r: bool)
        ensures
            r == (self@ == other@),
    {
        self.0 == other.0
    }

    /// A copy of this identifier.
    pub fn duplicate(&self) -> (r: Ident)
        ensures
            r@ == self@,
    {
        Ident(self.0.clone())
    }
}

impl Keyword {
    /// The keyword's text.
    pub open spec fn spec_text(self) -> Seq<char> {
        match self {
            Keyword::Select => seq!['S', 'E', 'L', 'E', 'C', 'T'],
            Keyword::From => seq!['F', 'R', 'O', 'M'],
            Keyword::Where => seq!['W', 'H', 'E', 'R', 'E'],
            Keyword::Count => seq!['C', 'O', 'U', 'N', 'T'],
        }
    }

    /// The keyword that the word `w` is, in any case.
    pub open spec fn of_word(w: Seq<char>) -> Option<Keyword> {
        let l = lower(w);
        if l == seq!['s', 'e', 'l', 'e', 'c', 't'] { Some(Keyword::Select) }
        else if l == seq!['f', 'r', 'o', 'm'] { Some(Keyword::From) }
        else if l == seq!['w', 'h', 'e', 'r', 'e'] { Some(Keyword::Where) }
        else if l == seq!['c', 'o', 'u', 'n', 't'] { Some(Keyword::Count) }
        else { None }
    }

    /// The keyword's text, upper-cased.
    pub fn as_str(self) -> (r: &'static str)
        ensures
            r@ == self.spec_text(),
    {
        proof {
            reveal_strlit("SELECT");
            reveal_strlit("FROM");
            reveal_strlit("WHERE");
            reveal_strlit("COUNT");
        }
        match self {
            Keyword::Select => "SELECT",
            Keyword::From => "FROM",
            Keyword::Where => "WHERE",
            Keyword::Count => "COUNT",
        }
    }

    /// The keyword that the characters `w` spell, in any case.
    pub fn from_chars(w: &[char]) -> (r: Option<Keyword>)
        ensures
            r == Keyword::of_word(w@),
    {
        let l = lower_chars(w);
        let select: [char; 6] = ['s', 'e', 'l', 'e', 'c', 't'];
        let from: [char; 4] = ['f', 'r', 'o', 'm'];
        let where_: [char; 5] = ['w', 'h', 'e', 'r', 'e'];
        let count: [char; 5] = ['c', 'o', 'u', 'n', 't'];
        proof {
            assert(select@ == seq!['s', 'e', 'l', 'e', 'c', 't']);
            assert(from@ == seq!['f', 'r', 'o', 'm']);
            assert(where_@ == seq!['w', 'h', 'e', 'r', 'e']);
            assert(count@ == seq!['c', 'o', 'u', 'n', 't']);
        }
        if chars_eq(l.as_slice(), select.as_slice()) {
            Some(Keyword::Select)
        } else if chars_eq(l.as_slice(), from.as_slice()) {
            Some(Keyword::From)
        } else if chars_eq(l.as_slice(), where_.as_slice()) {
            Some(Keyword::Where)
        } else if chars_eq(l.as_slice(), count.as_slice()) {
            Some(Keyword::Count)
        } else {
            None
        }
    }

    /// The keyword that `word` is, in any case.
    pub fn try_from(word: &str) -> (r: Result<Keyword, ()>)
        ensures
            match Keyword::of_word(word@) {
                Some(k) => r == Ok::<Keyword, ()>(k),
                None => r == Err::<Keyword, ()>(()),
            },
    {
        let cs = chars_of(word);
        match Keyword::from_chars(cs.as_slice()) {
            Some(k) => Ok(k),
            None => Err(()),
        }
    }
}

impl Symbol {
    /// The symbol that the character `c` is.
    pub open spec fn of_char(c: char) -> Option<Symbol> {
        if c == ',' { Some(Symbol::Comma) }
        else if c == '=' { Some(Symbol::Equal) }
        else if c == '(' { Some(Symbol::LParen) }
        else if c == ')' { Some(Symbol::RParen) }
        else if c == '*' { Some(Symbol::Star) }
        else { None }
    }

    /// The symbol that the character `value` is.
    pub fn try_from(value: char) -> (r: Result<Symbol, ()>)
        ensures
            match Symbol::of_char(value) {
                Some(s) => r == Ok::<Symbol, ()>(s),
                None => r == Err::<Symbol, ()>(()),
            },
    {
        match value {
            ',' => Ok(Symbol::Comma),
            '=' => Ok(Symbol::Equal),
            '(' => Ok(Symbol::LParen),
            ')' => Ok(Symbol::RParen),
            '*' => Ok(Symbol::Star),
            _ => Err(()),
        }
    }
}

pub open spec fn spec_is_ident_start(c: char) -> bool {
    ('a' <= c <= 'z') || ('A' <= c <= 'Z') || c == '_'
}

pub open spec fn spec_is_ident_char(c: char) -> bool {
    spec_is_ident_start(c) || ('0' <= c <= '9')
}

/// Whether an identifier may start with `c`: an ASCII letter or `_`.
pub fn is_ident_start(c: char) -> (r: bool)
    ensures
        r == spec_is_ident_start(c),
{
    ('a' <= c && c <= 'z') || ('A' <= c && c <= 'Z') || c == '_'
}

/// Whether an identifier may hold `c`: an ASCII letter or digit, or `_`.
pub fn is_ident_char(c: char) -> (r: bool)
    ensures
        r == spec_is_ident_char(c),
{
    is_ident_start(c) || ('0' <= c && c <= '9')
}

/// The first position at or after `i` that holds a quote.
pub open spec fn find_quote(q: Seq<char>, i: nat) -> Option<nat>
    decreases q.len() - i,
{
    if i >= q.len() { None } else if q[i as int] == '\'' { Some(i) } else { find_quote(q, i + 1) }
}

/// The first position at or after `i` that holds no identifier character.
pub open spec fn ident_end(q: Seq<char>, i: nat) -> nat
    decreases q.len() - i,
{
    if i < q.len() && spec_is_ident_char(q[i as int]) { ident_end(q, i + 1) } else { i }
}

/// The token that starts at position `i` of `q` (which is inside `q`), and
/// the position right after it.
pub open spec fn next_token(q: Seq<char>, i: nat) -> Result<(TokenView, nat), QueryErrorView> {
    let c = q[i as int];
    if c == '\'' {
        match find_quote(q, i + 1) {
            None => Err(QueryErrorView::UnterminatedString { pos: i as usize }),
            Some(j) => Ok((TokenView::StringLit(q.subrange((i + 1) as int, j as int)), j + 1)),
        }
    } else if Symbol::of_char(c) is Some {
        Ok((TokenView::Symbol(Symbol::of_char(c)->0), i + 1))
    } else if spec_is_ident_start(c) {
        let e = ident_end(q, i + 1);
        let word = q.subrange(i as int, e as int);
        match Keyword::of_word(word) {
            Some(k) => Ok((TokenView::Keyword(k), e)),
            None => Ok((TokenView::Ident(lower(word)), e)),
        }
    } else {
        Err(QueryErrorView::UnexpectedChar { ch: c, pos: i as usize })
    }
}

pub proof fn lemma_find_quote(q: Seq<char>, i: nat)
    ensures
        find_quote(q, i) matches Some(j) ==> i <= j < q.len() && q[j as int] == '\'',
    decreases q.len() - i,
{
    if i < q.len() && q[i as int] != '\'' {
        lemma_find_quote(q, i + 1);
    }
}

pub proof fn lemma_ident_end(q: Seq<char>, i: nat)
    ensures
        i <= ident_end(q, i),
        i <= q.len() ==> ident_end(q, i) <= q.len(),
    decreases q.len() - i,
{
    if i < q.len() && spec_is_ident_char(q[i as int]) {
        lemma_ident_end(q, i + 1);
    }
}

pub proof fn lemma_next_token_advances(q: Seq<char>, i: nat)
    requires
        i < q.len(),
    ensures
        next_token(q, i) matches Ok((_, k)) ==> i < k <= q.len(),
{
    lemma_find_quote(q, i + 1);
    lemma_ident_end(q, i + 1);
}

/// The tokens of `q` from position `i` on.
pub open spec fn tokens_from(q: Seq<char>, i: nat) -> Result<Seq<TokenView>, QueryErrorView>
    decreases q.len() - i,
{
    let j = skip_ws(q, i);
    if j >= q.len() || i > q.len() {
        Ok(Seq::empty())
    } else {
        proof {
            lemma_skip_ws(q, i);
            lemma_next_token_advances(q, j);
        }
        match next_token(q, j) {
            Err(e) => Err(e),
            Ok((t, k)) => match tokens_from(q, k) {
                Err(e) => Err(e),
                Ok(ts) => Ok(seq![t] + ts),
            },
        }
    }
}

/// The tokens of the query `q`.
pub open spec fn tokens_spec(q: Seq<char>) -> Result<Seq<TokenView>, QueryErrorView> {
    tokens_from(q, 0)
}

fn find_closing_quote(cs: &[char], start: usize) -> (r: Option<usize>)
    requires
        start <= cs@.len(),
    ensures
        r == (match find_quote(cs@, start as nat) {
            Some(j) => Some(j as usize),
            None => None::<usize>,
        }),
{
    let mut i = start;
    while i < cs.len()
        invariant
            start <= i <= cs@.len(),
            find_quote(cs@, start as nat) == find_quote(cs@, i as nat),
        decreases cs@.len() - i,
    {
        if cs[i] == '\'' {
            return Some(i);
        }
        i = i + 1;
    }
    None
}

fn ident_end_exec(cs: &[char], start: usize) -> (r: usize)
    requires
        start <= cs@.len(),
    ensures
        r == ident_end(cs@, start as nat),
{
    let mut i = start;
    while i < cs.len() && is_ident_char(cs[i])
        invariant
            start <= i <= cs@.len(),
            ident_end(cs@, start as nat) == ident_end(cs@, i as nat),
        decreases cs@.len() - i,
    {
        i = i + 1;
    }
    i
}

/// `r` holds the tokens `s` describes, or the error it describes.
pub open spec fn tokens_outcome(r: Result<Vec<Token>, QueryError>, s: Result<Seq<TokenView>, QueryErrorView>) -> bool {
    match (r, s) {
        (Ok(v), Ok(ts)) => v.deep_view() == ts,
        (Err(e), Err(f)) => e@ == f,
        _ => false,
    }
}

/// Splits `query` into tokens. Positions in errors count characters from 0.
pub fn tokenize(query: &str) -> (r: Result<Vec<Token>, QueryError>)
    ensures
        tokens_outcome(r, tokens_spec(query@)),
{
    let cs = chars_of(query);
    let chars = cs.as_slice();
    let n = chars.len();
    let mut tokens: Vec<Token> = Vec::new();
    let mut i = skip_whitespace(chars, 0);
    proof {
        lemma_skip_ws(chars@, 0);
    }
    while i < n
        invariant
            n == chars@.len(),
            chars@ == query@,
            i <= n,
            skip_ws(chars@, i as nat) == i,
            tokens_spec(chars@) == match tokens_from(chars@, i as nat) {
                Ok(ts) => Ok(tokens.deep_view() + ts),
                Err(e) => Err::<Seq<TokenView>, QueryErrorView>(e),
            },
        decreases n - i,
    {
        let c = chars[i];
        let ghost q = chars@;
        proof {
            lemma_next_token_advances(q, i as nat);
        }
        let (token, next): (Token, usize) = if c == '\'' {
            match find_closing_quote(chars, i + 1) {
                None => {
                    return Err(QueryError::UnterminatedString { pos: i });
                },
                Some(close) => {
                    proof { lemma_find_quote(q, (i + 1) as nat); }
                    let text = string_from_chars(&chars[i + 1..close]);
                    (Token::StringLit(StringLit(text)), close + 1)
                },
            }
        } else {
            match Symbol::try_from(c) {
                Ok(s) => (Token::Symbol(s), i + 1),
                Err(()) => {
                    if is_ident_start(c) {
                        let e = ident_end_exec(chars, i + 1);
                        proof { lemma_ident_end(q, (i + 1) as nat); }
                        let word = &chars[i..e];
                        let token = match Keyword::from_chars(word) {
                            Some(k) => Token::Keyword(k),
                            None => Token::Ident(Ident::from_chars(word)),
                        };
                        (token, e)
                    } else {
                        return Err(QueryError::UnexpectedChar { ch: c, pos: i });
                    }
                },
            }
        };
        assert(next_token(q, i as nat) == Ok::<(TokenView, nat), QueryErrorView>((token@, next as nat)));
        let ghost before = tokens.deep_view();
        tokens.push(token);
        proof {
            assert(tokens.deep_view() == before + seq![token@]);
            match tokens_from(q, next as nat) {
                Ok(ts) => { assert(before + (seq![token@] + ts) == tokens.deep_view() + ts); },
                Err(e) => {},
            }
            lemma_skip_ws(q, next as nat);
        }
        i = skip_whitespace(chars, next);
        proof {
            lemma_skip_ws(q, i as nat);
        }
    }
    proof {
        assert(tokens.deep_view() + Seq::<TokenView>::empty() == tokens.deep_view());
    }
    Ok(tokens)
}


/// Lower-casing twice is lower-casing once.
pub proof fn lemma_lower_idempotent(s: Seq<char>)
    ensures
        lower(lower(s)) == lower(s),
{
    assert forall|i: int| 0 <= i < s.len() implies #[trigger] ascii_lower(ascii_lower(s[i])) == ascii_lower(s[i]) by {
        let c = s[i];
        if 'A' <= c <= 'Z' {
            assert((c as u32 + 32) as char as u32 == c as u32 + 32);
        }
    }
    assert(lower(lower(s)) =~= lower(s));
}

/// Keywords are recognized in any case.
pub proof fn lemma_keyword_any_case(w: Seq<char>)
    ensures
        Keyword::of_word(lower(w)) == Keyword::of_word(w),
{
    lemma_lower_idempotent(w);
}

proof fn lemma_find_quote_at(q: Seq<char>, i: nat, j: nat)
    requires
        i <= j < q.len(),
        q[j as int] == '\'',
        forall|k: int| i <= k < j ==> q[k] != '\'',
    ensures
        find_quote(q, i) == Some(j),
    decreases j - i,
{
    if i < j {
        lemma_find_quote_at(q, i + 1, j);
    }
}

/// A string literal keeps its text exactly as written: a text without
/// quotes, quoted, is one string literal token holding that text.
pub proof fn lemma_string_literal_exact(s: Seq<char>)
    requires
        forall|k: int| 0 <= k < s.len() ==> s[k] != '\'',
    ensures
        tokens_spec(seq!['\''] + s + seq!['\'']) == Ok::<Seq<TokenView>, QueryErrorView>(seq![TokenView::StringLit(s)]),
{
    let q = seq!['\''] + s + seq!['\''];
    let n = s.len();
    assert(q[0] == '\'');
    assert(!is_whitespace(q[0]));
    assert(skip_ws(q, 0) == 0);
    assert forall|k: int| 1 <= k < n + 1 implies q[k] != '\'' by {
        assert(q[k] == s[k - 1]);
    }
    assert(q[n + 1int] == '\'');
    lemma_find_quote_at(q, 1, n + 1);
    assert(q.subrange(1, n + 1int) =~= s);
    assert(next_token(q, 0) == Ok::<(TokenView, nat), QueryErrorView>((TokenView::StringLit(s), n + 2)));
    assert(skip_ws(q, n + 2) == n + 2);
    assert(tokens_from(q, n + 2) == Ok::<Seq<TokenView>, QueryErrorView>(Seq::empty()));
    assert(seq![TokenView::StringLit(s)] + Seq::<TokenView>::empty() == seq![TokenView::StringLit(s)]);
}

/// Whether every identifier among `ts` is lower-case.
pub open spec fn idents_lower(ts: Seq<TokenView>) -> bool {
    forall|k: int| 0 <= k < ts.len() ==> (#[trigger] ts[k] matches TokenView::Ident(x) ==> lower(x) == x)
}

proof fn lemma_tokens_from_lower(q: Seq<char>, i: nat)
    ensures
        tokens_from(q, i) matches Ok(ts) ==> idents_lower(ts),
    decreases q.len() - i,
{
    let j = skip_ws(q, i);
    if j >= q.len() || i > q.len() {
    } else {
        lemma_skip_ws(q, i);
        lemma_next_token_advances(q, j);
        match next_token(q, j) {
            Err(e) => {},
            Ok((t, k)) => {
                lemma_tokens_from_lower(q, k);
                if let TokenView::Ident(x) = t {
                    let e = ident_end(q, j + 1);
                    lemma_lower_idempotent(q.subrange(j as int, e as int));
                }
                match tokens_from(q, k) {
                    Ok(ts) => {
                        let all = seq![t] + ts;
                        assert forall|m: int| 0 <= m < all.len() implies (#[trigger] all[m] matches TokenView::Ident(x) ==> lower(x) == x) by {
                            if m > 0 {
                                assert(all[m] == ts[m - 1]);
                            }
                        }
                    },
                    Err(e) => {},
                }
            },
        }
    }
}

/// Identifiers come out of tokenizing lower-cased.
pub proof fn lemma_identifiers_lower(q: Seq<char>)
    ensures
        tokens_spec(q) matches Ok(ts) ==> idents_lower(ts),
{
    lemma_tokens_from_lower(q, 0);
}

} // verus!
