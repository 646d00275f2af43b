//! White space between tokens: how much of it there is, and where, does not
//! change what a query tokenizes to.

use vstd::prelude::*;
use crate::error::QueryErrorView;
use crate::text::{is_whitespace, lemma_skip_ws, skip_ws};
use crate::tokenize::{
    TokenView, find_quote, ident_end, lemma_find_quote, lemma_ident_end, lemma_next_token_advances,
    next_token, spec_is_ident_char, tokens_from, tokens_spec,
};

verus! {

/// `q`, read from outside a string literal, with each maximal run of white
/// space outside string literals replaced by one space, and a run at the
/// end dropped. The text of a string literal, and everything from a quote
/// that is never closed, is kept as it is.
pub open spec fn squeeze_ws(q: Seq<char>) -> Seq<char>
    decreases q.len(),
{
    if q.len() == 0 {
        Seq::empty()
    } else if is_whitespace(q[0]) {
        proof {
            lemma_skip_ws(q, 1);
        }
        let j = skip_ws(q, 0);
        if j >= q.len() {
            Seq::empty()
        } else {
            seq![' '] + squeeze_ws(q.subrange(j as int, q.len() as int))
        }
    } else if q[0] == '\'' {
        proof {
            lemma_find_quote(q, 1);
        }
        match find_quote(q, 1) {
            None => q,
            Some(j) => q.subrange(0, (j + 1) as int) + squeeze_ws(q.subrange((j + 1) as int, q.len() as int)),
        }
    } else {
        seq![q[0]] + squeeze_ws(q.subrange(1, q.len() as int))
    }
}

/// The query `q` with its white space outside string literals collapsed:
/// none at the start or the end, one space for each run in between.
pub open spec fn collapse_ws(q: Seq<char>) -> Seq<char> {
    squeeze_ws(q.subrange(skip_ws(q, 0) as int, q.len() as int))
}

/// Both tokenize, to the same tokens, or neither does.
pub open spec fn same_tokens(a: Result<Seq<TokenView>, QueryErrorView>, b: Result<Seq<TokenView>, QueryErrorView>) -> bool {
    (a is Ok <==> b is Ok) && (a is Ok ==> a == b)
}

proof fn lemma_skip_ws_shift(q: Seq<char>, i: nat, k: nat)
    requires
        i + k <= q.len(),
    ensures
        skip_ws(q, i + k) == skip_ws(q.subrange(i as int, q.len() as int), k) + i,
    decreases q.len() - i - k,
{
    let s = q.subrange(i as int, q.len() as int);
    if i + k < q.len() {
        assert(s[k as int] == q[(i + k) as int]);
        if is_whitespace(q[(i + k) as int]) {
            lemma_skip_ws_shift(q, i, k + 1);
        }
    }
}

proof fn lemma_find_quote_shift(q: Seq<char>, i: nat, k: nat)
    requires
        i + k <= q.len(),
    ensures
        match find_quote(q.subrange(i as int, q.len() as int), k) {
            None => find_quote(q, i + k) is None,
            Some(j) => find_quote(q, i + k) == Some(j + i),
        },
    decreases q.len() - i - k,
{
    let s = q.subrange(i as int, q.len() as int);
    if i + k < q.len() {
        assert(s[k as int] == q[(i + k) as int]);
        if q[(i + k) as int] != '\'' {
            lemma_find_quote_shift(q, i, k + 1);
        }
    }
}

proof fn lemma_ident_end_shift(q: Seq<char>, i: nat, k: nat)
    requires
        i + k <= q.len(),
    ensures
        ident_end(q, i + k) == ident_end(q.subrange(i as int, q.len() as int), k) + i,
    decreases q.len() - i - k,
{
    let s = q.subrange(i as int, q.len() as int);
    if i + k < q.len() {
        assert(s[k as int] == q[(i + k) as int]);
        if spec_is_ident_char(q[(i + k) as int]) {
            lemma_ident_end_shift(q, i, k + 1);
        }
    }
}

proof fn lemma_next_token_shift(q: Seq<char>, i: nat, k: nat)
    requires
        i + k < q.len(),
    ensures
        next_token(q, i + k) is Ok <==> next_token(q.subrange(i as int, q.len() as int), k) is Ok,
        next_token(q.subrange(i as int, q.len() as int), k) matches Ok((t, m))
            ==> next_token(q, i + k) == Ok::<(TokenView, nat), QueryErrorView>((t, m + i)),
{
    let s = q.subrange(i as int, q.len() as int);
    assert(s[k as int] == q[(i + k) as int]);
    lemma_find_quote_shift(q, i, k + 1);
    lemma_find_quote(s, k + 1);
    lemma_ident_end_shift(q, i, k + 1);
    lemma_ident_end(s, k + 1);
    if let Some(j) = find_quote(s, k + 1) {
        assert(q.subrange((i + k + 1) as int, (j + i) as int) =~= s.subrange((k + 1) as int, j as int));
    }
    let e = ident_end(s, k + 1);
    assert(q.subrange((i + k) as int, (e + i) as int) =~= s.subrange(k as int, e as int));
}

/// The tokens of `q` from position `i + k` on are those of the rest of `q`
/// after position `i`, from position `k` on.
proof fn lemma_tokens_shift(q: Seq<char>, i: nat, k: nat)
    requires
        i + k <= q.len(),
    ensures
        same_tokens(tokens_from(q, i + k), tokens_from(q.subrange(i as int, q.len() as int), k)),
    decreases q.len() - i - k,
{
    let s = q.subrange(i as int, q.len() as int);
    lemma_skip_ws_shift(q, i, k);
    lemma_skip_ws(s, k);
    let js = skip_ws(s, k);
    if js < s.len() {
        lemma_next_token_shift(q, i, js);
        lemma_next_token_advances(s, js);
        if let Ok((t, m)) = next_token(s, js) {
            lemma_tokens_shift(q, i, m);
        }
    }
}

proof fn lemma_tokens_skip(q: Seq<char>, i: nat)
    requires
        i <= q.len(),
    ensures
        tokens_from(q, i) == tokens_from(q, skip_ws(q, i)),
{
    lemma_skip_ws(q, i);
    let j = skip_ws(q, i);
    if j < q.len() {
        assert(!is_whitespace(q[j as int]));
    }
    assert(skip_ws(q, j) == j);
}

proof fn lemma_find_quote_agree(a: Seq<char>, b: Seq<char>, x: nat, j: nat)
    requires
        find_quote(a, x) == Some(j),
        j < b.len(),
        forall|y: int| x <= y <= j ==> a[y] == b[y],
    ensures
        find_quote(b, x) == Some(j),
    decreases j - x,
{
    lemma_find_quote(a, x);
    if x < j {
        lemma_find_quote_agree(a, b, x + 1, j);
    }
}

proof fn lemma_ident_end_chars(q: Seq<char>, x: nat)
    ensures
        forall|y: int| x <= y < ident_end(q, x) ==> spec_is_ident_char(#[trigger] q[y]),
        ident_end(q, x) < q.len() ==> !spec_is_ident_char(q[ident_end(q, x) as int]),
    decreases q.len() - x,
{
    if x < q.len() && spec_is_ident_char(q[x as int]) {
        lemma_ident_end_chars(q, x + 1);
    }
}

proof fn lemma_ident_end_agree(a: Seq<char>, b: Seq<char>, x: nat, e: nat)
    requires
        ident_end(a, x) == e,
        x <= e <= b.len(),
        e <= a.len(),
        forall|y: int| x <= y < e ==> a[y] == b[y],
        e < b.len() ==> !spec_is_ident_char(b[e as int]),
    ensures
        ident_end(b, x) == e,
    decreases e - x,
{
    lemma_ident_end_chars(a, x);
    if x < e {
        assert(spec_is_ident_char(a[x as int]));
        lemma_ident_end_agree(a, b, x + 1, e);
    }
}

proof fn lemma_squeeze_head(r: Seq<char>)
    requires
        r.len() > 0,
    ensures
        !is_whitespace(r[0]) ==> squeeze_ws(r).len() > 0 && squeeze_ws(r)[0] == r[0],
        is_whitespace(r[0]) ==> squeeze_ws(r).len() == 0 || squeeze_ws(r)[0] == ' ',
{
    if r[0] == '\'' {
        lemma_find_quote(r, 1);
    }
}

proof fn lemma_squeeze_copy(q: Seq<char>, m: nat)
    requires
        m <= q.len(),
        forall|y: int| 0 <= y < m ==> !is_whitespace(#[trigger] q[y]) && q[y] != '\'',
    ensures
        squeeze_ws(q) == q.subrange(0, m as int) + squeeze_ws(q.subrange(m as int, q.len() as int)),
    decreases m,
{
    if m == 0 {
        assert(q.subrange(0, q.len() as int) =~= q);
        assert(q.subrange(0, 0) + squeeze_ws(q) =~= squeeze_ws(q));
    } else {
        let q1 = q.subrange(1, q.len() as int);
        assert(!is_whitespace(q[0]) && q[0] != '\'');
        assert forall|y: int| 0 <= y < m - 1 implies !is_whitespace(#[trigger] q1[y]) && q1[y] != '\'' by {
            assert(q1[y] == q[y + 1]);
        }
        lemma_squeeze_copy(q1, (m - 1) as nat);
        assert(q1.subrange((m - 1) as int, q1.len() as int) =~= q.subrange(m as int, q.len() as int));
        assert(seq![q[0]] + q1.subrange(0, (m - 1) as int) =~= q.subrange(0, m as int));
        assert(seq![q[0]] + (q1.subrange(0, (m - 1) as int) + squeeze_ws(q.subrange(m as int, q.len() as int)))
            =~= q.subrange(0, m as int) + squeeze_ws(q.subrange(m as int, q.len() as int)));
    }
}

/// After a token that ends at position `k` of both `q` and `p + b`, where
/// `q` and `p + b` agree up to `k` (the length of `p`), the rest of `q` and
/// `b` tokenize alike when the rest of `q` and its squeezed form do.
proof fn lemma_after_token(q: Seq<char>, p: Seq<char>, b: Seq<char>, k: nat)
    requires
        k == p.len(),
        k <= q.len(),
        b == squeeze_ws(q.subrange(k as int, q.len() as int)),
        same_tokens(tokens_from(q.subrange(k as int, q.len() as int), 0), tokens_from(b, 0)),
    ensures
        same_tokens(tokens_from(q, k), tokens_from(p + b, k)),
{
    lemma_tokens_shift(q, k, 0);
    lemma_tokens_shift(p + b, k, 0);
    assert((p + b).subrange(k as int, (p + b).len() as int) =~= b);
}

/// Squeezing the white space of `q` leaves its tokens as they are.
proof fn lemma_squeeze_tokens(q: Seq<char>)
    ensures
        same_tokens(tokens_from(q, 0), tokens_from(squeeze_ws(q), 0)),
    decreases q.len(),
{
    let n = q.len();
    let big_q = squeeze_ws(q);
    if n == 0 {
        return;
    }
    let c = q[0];
    if is_whitespace(c) {
        lemma_skip_ws(q, 1);
        lemma_skip_ws(q, 0);
        let j = skip_ws(q, 0);
        if j < n {
            let r = q.subrange(j as int, n as int);
            let b = squeeze_ws(r);
            assert(r[0] == q[j as int]);
            lemma_squeeze_head(r);
            lemma_squeeze_tokens(r);
            lemma_tokens_skip(q, 0);
            lemma_tokens_shift(q, j, 0);
            assert(big_q == seq![' '] + b);
            assert(big_q[1] == b[0]);
            assert(skip_ws(big_q, 1) == 1);
            assert(skip_ws(big_q, 0) == 1);
            lemma_tokens_skip(big_q, 0);
            lemma_tokens_shift(big_q, 1, 0);
            assert(big_q.subrange(1, big_q.len() as int) =~= b);
        }
    } else if c == '\'' {
        lemma_find_quote(q, 1);
        if let Some(j) = find_quote(q, 1) {
            let k = j + 1;
            let p = q.subrange(0, k as int);
            let r = q.subrange(k as int, n as int);
            let b = squeeze_ws(r);
            lemma_squeeze_tokens(r);
            assert(big_q == p + b);
            assert forall|y: int| 1 <= y <= j implies q[y] == #[trigger] big_q[y] by {
                assert(big_q[y] == p[y]);
            }
            lemma_find_quote_agree(q, big_q, 1, j);
            assert(big_q.subrange(1, j as int) =~= q.subrange(1, j as int));
            assert(big_q[0] == c);
            lemma_after_token(q, p, b, k);
        }
    } else {
        let r1 = q.subrange(1, n as int);
        if crate::tokenize::Symbol::of_char(c) is Some {
            lemma_squeeze_tokens(r1);
            let p = seq![c];
            assert(big_q == p + squeeze_ws(r1));
            assert(big_q[0] == c);
            lemma_after_token(q, p, squeeze_ws(r1), 1);
        } else if crate::tokenize::spec_is_ident_start(c) {
            lemma_ident_end(q, 1);
            lemma_ident_end_chars(q, 1);
            let e = ident_end(q, 1);
            assert forall|y: int| 0 <= y < e implies !is_whitespace(#[trigger] q[y]) && q[y] != '\'' by {
                if y > 0 {
                    assert(spec_is_ident_char(q[y]));
                }
            }
            lemma_squeeze_copy(q, e);
            let p = q.subrange(0, e as int);
            let r = q.subrange(e as int, n as int);
            let b = squeeze_ws(r);
            lemma_squeeze_tokens(r);
            assert(big_q == p + b);
            if e < n {
                assert(r[0] == q[e as int]);
                lemma_squeeze_head(r);
                if b.len() > 0 {
                    assert(big_q[e as int] == b[0]);
                }
            }
            assert forall|y: int| 1 <= y < e implies q[y] == #[trigger] big_q[y] by {
                assert(big_q[y] == p[y]);
            }
            lemma_ident_end_agree(q, big_q, 1, e);
            assert(big_q.subrange(0, e as int) =~= p);
            assert(big_q[0] == c);
            lemma_after_token(q, p, b, e);
        } else {
            assert(big_q == seq![c] + squeeze_ws(r1));
            assert(big_q[0] == c);
        }
    }
}

/// Collapsing white space outside string literals (dropping it at the
/// start and the end, and writing one space for each run in between) does
/// not change what a query tokenizes to: both queries tokenize, to the same
/// tokens, or neither does.
pub proof fn lemma_whitespace_collapse(q: Seq<char>)
    ensures
        tokens_spec(q) is Ok <==> tokens_spec(collapse_ws(q)) is Ok,
        tokens_spec(q) is Ok ==> tokens_spec(q) == tokens_spec(collapse_ws(q)),
{
    lemma_skip_ws(q, 0);
    let j = skip_ws(q, 0);
    lemma_tokens_skip(q, 0);
    lemma_tokens_shift(q, j, 0);
    lemma_squeeze_tokens(q.subrange(j as int, q.len() as int));
}

} // verus!
