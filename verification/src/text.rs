//! Conversions between bytes, characters and `String`s.

use vstd::prelude::*;
use vstd::utf8::{valid_utf8, decode_utf8};

verus! {

/// `String::from_utf8`: the text is given back exactly when the bytes are
/// valid UTF-8, and it is then the characters that the bytes encode.
#[verifier::external_body]
pub(crate) fn utf8_string(bytes: Vec<u8>) -> (r: Option<String>)
    ensures
        r is Some <==> valid_utf8(bytes@),
        r matches Some(s) ==> s@ == decode_utf8(bytes@),
{
    String::from_utf8(bytes).ok()
}

/// `String::from_iter` over characters: the string holds exactly `chars`.
#[verifier::external_body]
pub(crate) fn string_from_chars(chars: &[char]) -> (r: String)
    ensures
        r@ == chars@,
{
    String::from_iter(chars.iter())
}

/// The characters of `s`, in order.
pub fn chars_of(s: &str) -> (r: Vec<char>)
    ensures
        r@ == s@,
{
    broadcast use vstd::string::group_string_axioms;
    let mut r: Vec<char> = Vec::new();
    for c in it: s.chars()
        invariant
            r@ == it.seq().take(it.index() as int),
            it.seq() == s@,
    {
        r.push(c);
    }
    r
}

/// Whether `c` is white space (Unicode `White_Space`, as `char::is_whitespace`).
pub open spec fn is_whitespace(c: char) -> bool {
    ||| '\u{9}' <= c <= '\u{d}'
    ||| c == ' '
    ||| c == '\u{85}'
    ||| c == '\u{a0}'
    ||| c == '\u{1680}'
    ||| '\u{2000}' <= c <= '\u{200a}'
    ||| c == '\u{2028}'
    ||| c == '\u{2029}'
    ||| c == '\u{202f}'
    ||| c == '\u{205f}'
    ||| c == '\u{3000}'
}

pub fn is_ws(c: char) -> (r: bool)
    ensures
        r == is_whitespace(c),
{
    ('\u{9}' <= c && c <= '\u{d}') || c == ' ' || c == '\u{85}' || c == '\u{a0}' || c == '\u{1680}'
        || ('\u{2000}' <= c && c <= '\u{200a}') || c == '\u{2028}' || c == '\u{2029}' || c == '\u{202f}'
        || c == '\u{205f}' || c == '\u{3000}'
}

/// The first position at or after `i` that is not white space.
pub open spec fn skip_ws(q: Seq<char>, i: nat) -> nat
    decreases q.len() - i,
{
    if i < q.len() && is_whitespace(q[i as int]) { skip_ws(q, i + 1) } else { i }
}

pub proof fn lemma_skip_ws(q: Seq<char>, i: nat)
    ensures
        i <= skip_ws(q, i),
        i <= q.len() ==> skip_ws(q, i) <= q.len(),
        skip_ws(q, i) < q.len() ==> !is_whitespace(q[skip_ws(q, i) as int]),
    decreases q.len() - i,
{
    if i < q.len() && is_whitespace(q[i as int]) {
        lemma_skip_ws(q, i + 1);
    }
}

pub fn skip_whitespace(cs: &[char], start: usize) -> (r: usize)
    requires
        start <= cs@.len(),
    ensures
        r == skip_ws(cs@, start as nat),
{
    let mut i = start;
    while i < cs.len() && is_ws(cs[i])
        invariant
            start <= i <= cs@.len(),
            skip_ws(cs@, start as nat) == skip_ws(cs@, i as nat),
        decreases cs@.len() - i,
    {
        i = i + 1;
    }
    i
}


/// The first position at or after `i` that is white space, or the end.
pub open spec fn next_ws(q: Seq<char>, i: nat) -> nat
    decreases q.len() - i,
{
    if i < q.len() && !is_whitespace(q[i as int]) { next_ws(q, i + 1) } else { i }
}

/// The end of `q`'s first `n` characters once white space at their end is dropped.
pub open spec fn trailing_ws_start(q: Seq<char>, n: nat) -> nat
    decreases n,
{
    if n > 0 && is_whitespace(q[n - 1]) { trailing_ws_start(q, (n - 1) as nat) } else { n }
}

/// `s` without white space at either end (as `str::trim`).
pub open spec fn trim(s: Seq<char>) -> Seq<char> {
    let start = skip_ws(s, 0);
    let t = s.subrange(start as int, s.len() as int);
    t.subrange(0, trailing_ws_start(t, t.len()) as int)
}

/// The first whitespace-separated word of `s` (as `split_whitespace().next()`).
pub open spec fn first_word(s: Seq<char>) -> Option<Seq<char>> {
    let start = skip_ws(s, 0);
    if start >= s.len() {
        None
    } else {
        Some(s.subrange(start as int, next_ws(s, start) as int))
    }
}

/// The first position at or after `i` that holds `c`.
pub open spec fn index_of_from(s: Seq<char>, c: char, i: nat) -> Option<nat>
    decreases s.len() - i,
{
    if i >= s.len() { None } else if s[i as int] == c { Some(i) } else { index_of_from(s, c, i + 1) }
}

/// The first position that holds `c`.
pub open spec fn index_of(s: Seq<char>, c: char) -> Option<nat> {
    index_of_from(s, c, 0)
}

/// The last position before `n` that holds `c`.
pub open spec fn last_index_below(s: Seq<char>, c: char, n: nat) -> Option<nat>
    decreases n,
{
    if n == 0 { None } else if s[n - 1] == c { Some((n - 1) as nat) } else { last_index_below(s, c, (n - 1) as nat) }
}

/// The last position that holds `c`.
pub open spec fn last_index_of(s: Seq<char>, c: char) -> Option<nat> {
    last_index_below(s, c, s.len())
}

pub proof fn lemma_index_of_from(s: Seq<char>, c: char, i: nat)
    ensures
        index_of_from(s, c, i) matches Some(j) ==> i <= j < s.len() && s[j as int] == c,
        index_of_from(s, c, i) is None ==> forall|k: int| i <= k < s.len() ==> s[k] != c,
    decreases s.len() - i,
{
    if i < s.len() && s[i as int] != c {
        lemma_index_of_from(s, c, i + 1);
    }
}

pub proof fn lemma_last_index_below(s: Seq<char>, c: char, n: nat)
    requires
        n <= s.len(),
    ensures
        last_index_below(s, c, n) matches Some(j) ==> j < n && s[j as int] == c,
    decreases n,
{
    if n > 0 && s[n - 1] != c {
        lemma_last_index_below(s, c, (n - 1) as nat);
    }
}

/// The pieces of `s` between the separators `sep` (as `str::split`).
pub open spec fn split(s: Seq<char>, sep: char) -> Seq<Seq<char>>
    decreases s.len(),
{
    match index_of(s, sep) {
        None => seq![s],
        Some(i) => {
            proof { lemma_index_of_from(s, sep, 0); }
            seq![s.subrange(0, i as int)] + split(s.subrange(i + 1int, s.len() as int), sep)
        },
    }
}

/// Whether `needle` occurs in `hay`.
pub open spec fn contains(hay: Seq<char>, needle: Seq<char>) -> bool {
    exists|i: int| 0 <= i && i + needle.len() <= hay.len() && #[trigger] hay.subrange(i, i + needle.len()) == needle
}

/// Whether `s` starts with `p`.
pub open spec fn starts_with(s: Seq<char>, p: Seq<char>) -> bool {
    p.len() <= s.len() && s.subrange(0, p.len() as int) == p
}

/// The first position at or after `start` that holds `c`.
pub fn find_char(cs: &[char], c: char, start: usize) -> (r: Option<usize>)
    requires
        start <= cs@.len(),
    ensures
        r == (match index_of_from(cs@, c, start as nat) {
            Some(j) => Some(j as usize),
            None => None::<usize>,
        }),
{
    let mut i = start;
    while i < cs.len()
        invariant
            start <= i <= cs@.len(),
            index_of_from(cs@, c, start as nat) == index_of_from(cs@, c, i as nat),
        decreases cs@.len() - i,
    {
        if cs[i] == c {
            return Some(i);
        }
        i = i + 1;
    }
    None
}

/// The last position that holds `c`.
pub fn rfind_char(cs: &[char], c: char) -> (r: Option<usize>)
    ensures
        r == (match last_index_of(cs@, c) {
            Some(j) => Some(j as usize),
            None => None::<usize>,
        }),
{
    let mut n = cs.len();
    while n > 0
        invariant
            n <= cs@.len(),
            last_index_of(cs@, c) == last_index_below(cs@, c, n as nat),
        decreases n,
    {
        if cs[n - 1] == c {
            return Some(n - 1);
        }
        n = n - 1;
    }
    None
}

/// `cs` without white space at either end.
pub fn trim_chars(cs: &[char]) -> (r: Vec<char>)
    ensures
        r@ == trim(cs@),
{
    let start = skip_whitespace(cs, 0);
    proof { lemma_skip_ws(cs@, 0); }
    let t = &cs[start..cs.len()];
    let mut n = t.len();
    while n > 0 && is_ws(t[n - 1])
        invariant
            n <= t@.len(),
            trailing_ws_start(t@, t@.len()) == trailing_ws_start(t@, n as nat),
        decreases n,
    {
        n = n - 1;
    }
    vstd::slice::slice_to_vec(&t[0..n])
}

/// The first whitespace-separated word of `cs`.
pub fn first_word_chars(cs: &[char]) -> (r: Option<Vec<char>>)
    ensures
        match first_word(cs@) {
            Some(w) => r matches Some(v) && v@ == w,
            None => r is None,
        },
{
    let start = skip_whitespace(cs, 0);
    proof { lemma_skip_ws(cs@, 0); }
    if start >= cs.len() {
        return None;
    }
    let mut i = start;
    while i < cs.len() && !is_ws(cs[i])
        invariant
            start <= i <= cs@.len(),
            next_ws(cs@, start as nat) == next_ws(cs@, i as nat),
        decreases cs@.len() - i,
    {
        i = i + 1;
    }
    Some(vstd::slice::slice_to_vec(&cs[start..i]))
}

/// The characters held by each vector of `v`.
pub open spec fn char_views(v: Seq<Vec<char>>) -> Seq<Seq<char>> {
    v.map_values(|x: Vec<char>| x@)
}

/// The pieces of `cs` between the separators `sep`.
pub fn split_chars(cs: &[char], sep: char) -> (r: Vec<Vec<char>>)
    ensures
        char_views(r@) == split(cs@, sep),
{
    let mut pieces: Vec<Vec<char>> = Vec::new();
    let mut start: usize = 0;
    let n = cs.len();
    proof {
        assert(cs@.subrange(0, n as int) == cs@);
        assert(char_views(pieces@) == Seq::<Seq<char>>::empty());
        assert(Seq::<Seq<char>>::empty() + split(cs@, sep) == split(cs@, sep));
    }
    loop
        invariant
            start <= n == cs@.len(),
            split(cs@, sep) == char_views(pieces@) + split(cs@.subrange(start as int, n as int), sep),
        decreases n - start,
    {
        let ghost rest = cs@.subrange(start as int, n as int);
        match find_char(cs, sep, start) {
            None => {
                proof {
                    lemma_index_of_shift(cs@, sep, start as nat);
                    assert(index_of(rest, sep) is None);
                }
                let piece = vstd::slice::slice_to_vec(&cs[start..n]);
                let ghost before = char_views(pieces@);
                pieces.push(piece);
                proof {
                    assert(split(rest, sep) == seq![rest]);
                    assert(char_views(pieces@) == before + seq![piece@]);
                }
                return pieces;
            },
            Some(i) => {
                proof {
                    lemma_index_of_shift(cs@, sep, start as nat);
                    lemma_index_of_from(cs@, sep, start as nat);
                    assert(index_of(rest, sep) == Some((i - start) as nat));
                    assert(rest.subrange(0, i - start) == cs@.subrange(start as int, i as int));
                    assert(rest.subrange(i - start + 1, rest.len() as int) == cs@.subrange(i + 1, n as int));
                }
                let piece = vstd::slice::slice_to_vec(&cs[start..i]);
                let ghost before = char_views(pieces@);
                pieces.push(piece);
                proof {
                    assert(char_views(pieces@) == before + seq![piece@]);
                    assert(before + (seq![piece@] + split(cs@.subrange(i + 1, n as int), sep))
                        == char_views(pieces@) + split(cs@.subrange(i + 1, n as int), sep));
                }
                start = i + 1;
            },
        }
    }
}

/// Searching `s` from `i` on is searching `s` from `i` on as its own sequence.
pub proof fn lemma_index_of_shift(s: Seq<char>, c: char, i: nat)
    requires
        i <= s.len(),
    ensures
        index_of(s.subrange(i as int, s.len() as int), c) == (match index_of_from(s, c, i) {
            Some(j) => Some((j - i) as nat),
            None => None::<nat>,
        }),
    decreases s.len() - i,
{
    lemma_index_of_shift_from(s, c, i, 0);
}

proof fn lemma_index_of_shift_from(s: Seq<char>, c: char, i: nat, k: nat)
    requires
        i <= s.len(),
    ensures
        index_of_from(s.subrange(i as int, s.len() as int), c, k) == (match index_of_from(s, c, i + k) {
            Some(j) => Some((j - i) as nat),
            None => None::<nat>,
        }),
    decreases s.len() - (i + k),
{
    let t = s.subrange(i as int, s.len() as int);
    if i + k < s.len() {
        assert(t[k as int] == s[(i + k) as int]);
        lemma_index_of_shift_from(s, c, i, k + 1);
    }
}

/// Whether `needle` (not empty) occurs in `hay`.
pub fn contains_chars(hay: &[char], needle: &[char]) -> (r: bool)
    ensures
        r == contains(hay@, needle@),
{
    let n = hay.len();
    let m = needle.len();
    if m > n {
        proof {
            assert forall|i: int| 0 <= i && i + m <= n implies #[trigger] hay@.subrange(i, i + needle@.len()) != needle@ by {}
        }
        return false;
    }
    if m == 0 {
        proof {
            assert(hay@.subrange(0, 0int + needle@.len()) == needle@);
        }
        return true;
    }
    let mut i: usize = 0;
    while i <= n - m
        invariant
            m == needle@.len(),
            n == hay@.len(),
            0 < m <= n,
            i <= n - m + 1,
            forall|k: int| 0 <= k < i ==> #[trigger] hay@.subrange(k, k + m) != needle@,
        decreases n + 1 - i,
    {
        if starts_with_at(hay, needle, i) {
            return true;
        }
        i = i + 1;
    }
    false
}

/// Whether `hay` holds `needle` at position `i`.
fn starts_with_at(hay: &[char], needle: &[char], i: usize) -> (r: bool)
    requires
        i + needle@.len() <= hay@.len(),
    ensures
        r == (hay@.subrange(i as int, i + needle@.len()) == needle@),
{
    let m = needle.len();
    let n = hay.len();
    let mut j: usize = 0;
    while j < m
        invariant
            j <= m == needle@.len(),
            n == hay@.len(),
            i + m <= hay@.len(),
            hay@.subrange(i as int, i + j) == needle@.take(j as int),
        decreases m - j,
    {
        if hay[i + j] != needle[j] {
            proof {
                assert(hay@.subrange(i as int, i + m)[j as int] != needle@[j as int]);
            }
            return false;
        }
        j = j + 1;
        proof {
            assert(hay@.subrange(i as int, i + j) =~= needle@.take(j as int));
        }
    }
    proof {
        assert(needle@.take(m as int) == needle@);
    }
    true
}

/// Whether `s` starts with `p`.
pub fn starts_with_chars(s: &[char], p: &[char]) -> (r: bool)
    ensures
        r == starts_with(s@, p@),
{
    if p.len() > s.len() {
        return false;
    }
    starts_with_at(s, p, 0)
}

} // verus!
