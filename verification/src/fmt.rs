//! Rendering values as text: decimal numbers, column values, result rows.

use vstd::prelude::*;
use crate::record::{Column, ColumnView};
use crate::text::{chars_of, string_from_chars};

verus! {

/// The decimal digit `d` (less than 10).
pub open spec fn digit_char(d: nat) -> char {
    if d == 0 { '0' }
    else if d == 1 { '1' }
    else if d == 2 { '2' }
    else if d == 3 { '3' }
    else if d == 4 { '4' }
    else if d == 5 { '5' }
    else if d == 6 { '6' }
    else if d == 7 { '7' }
    else if d == 8 { '8' }
    else { '9' }
}

/// `n` in decimal, without leading zeros.
pub open spec fn decimal(n: nat) -> Seq<char>
    decreases n,
{
    if n < 10 { seq![digit_char(n)] } else { decimal(n / 10).push(digit_char(n % 10)) }
}

/// `i` in decimal, with a leading `-` when negative.
pub open spec fn signed_decimal(i: int) -> Seq<char> {
    if i < 0 { seq!['-'] + decimal((-i) as nat) } else { decimal(i as nat) }
}

/// The strings of `list`, `sep` between each two.
pub open spec fn join(list: Seq<Seq<char>>, sep: Seq<char>) -> Seq<char>
    decreases list.len(),
{
    if list.len() == 0 {
        Seq::empty()
    } else if list.len() == 1 {
        list[0]
    } else {
        join(list.drop_last(), sep) + sep + list.last()
    }
}

fn digit(d: u64) -> (r: char)
    requires
        d < 10,
    ensures
        r == digit_char(d as nat),
{
    if d == 0 { '0' }
    else if d == 1 { '1' }
    else if d == 2 { '2' }
    else if d == 3 { '3' }
    else if d == 4 { '4' }
    else if d == 5 { '5' }
    else if d == 6 { '6' }
    else if d == 7 { '7' }
    else if d == 8 { '8' }
    else { '9' }
}

/// Appends `n` in decimal to `out`.
pub fn push_decimal(n: u64, out: &mut Vec<char>)
    ensures
        final(out)@ == old(out)@ + decimal(n as nat),
    decreases n,
{
    if n < 10 {
        out.push(digit(n));
    } else {
        push_decimal(n / 10, out);
        out.push(digit(n % 10));
    }
}

/// `n` in decimal.
pub fn decimal_string(n: u64) -> (r: String)
    ensures
        r@ == decimal(n as nat),
{
    let mut out: Vec<char> = Vec::new();
    push_decimal(n, &mut out);
    assert(out@ == decimal(n as nat));
    string_from_chars(out.as_slice())
}

/// Appends `i` in decimal to `out`.
pub fn push_signed_decimal(i: i64, out: &mut Vec<char>)
    ensures
        final(out)@ == old(out)@ + signed_decimal(i as int),
{
    if i < 0 {
        out.push('-');
        let m: u64 = if i == i64::MIN { 0x8000_0000_0000_0000 } else { (-i) as u64 };
        let ghost mid = out@;
        push_decimal(m, out);
        assert(out@ == old(out)@ + (seq!['-'] + decimal(m as nat)));
    } else {
        push_decimal(i as u64, out);
    }
}

/// How a column value reads as text; `None` for a float, whose decimal
/// form this library does not compute.
pub open spec fn display_text(c: ColumnView) -> Option<Seq<char>> {
    match c {
        ColumnView::Null => Some("NULL"@),
        ColumnView::Int(i) => Some(signed_decimal(i as int)),
        ColumnView::Float(_) => None,
        ColumnView::Text(s) => Some(s),
        ColumnView::Blob(b) => Some("<blob "@ + decimal(b.len()) + " bytes>"@),
    }
}

impl Column {
    /// The text of this value, as a query prints it; `None` for a float.
    pub fn display_text(&self) -> (r: Option<String>)
        ensures
            match display_text(self@) {
                Some(t) => r matches Some(s) && s@ == t,
                None => r is None,
            },
    {
        match self {
            Column::Null => {
                let c = chars_of("NULL");
                Some(string_from_chars(c.as_slice()))
            },
            Column::Int(i) => {
                let mut out: Vec<char> = Vec::new();
                push_signed_decimal(*i, &mut out);
                assert(out@ == signed_decimal(*i as int));
                Some(string_from_chars(out.as_slice()))
            },
            Column::Float(_) => None,
            Column::Text(s) => Some(s.clone()),
            Column::Blob(b) => {
                let mut out = chars_of("<blob ");
                push_decimal(b.len() as u64, &mut out);
                let mut tail = chars_of(" bytes>");
                out.append(&mut tail);
                Some(string_from_chars(out.as_slice()))
            },
        }
    }
}

/// The characters held by each string of `v`.
pub open spec fn string_views(v: Seq<String>) -> Seq<Seq<char>> {
    v.map_values(|s: String| s@)
}

/// Appends the strings of `list`, `sep` between each two, to `out`.
pub fn push_joined(list: &[String], sep: &[char], out: &mut Vec<char>)
    ensures
        final(out)@ == old(out)@ + join(string_views(list@), sep@),
{
    let ghost views = string_views(list@);
    let ghost start = out@;
    let mut i: usize = 0;
    proof {
        assert(views.take(0) == Seq::<Seq<char>>::empty());
        assert(out@ == start + join(views.take(0), sep@));
    }
    while i < list.len()
        invariant
            i <= list@.len(),
            views == string_views(list@),
            out@ == start + join(views.take(i as int), sep@),
        decreases list@.len() - i,
    {
        let piece = chars_of(list[i].as_str());
        assert(views.take(i + 1).drop_last() == views.take(i as int));
        assert(views.take(i + 1).last() == piece@);
        if i > 0 {
            let mut s = vstd::slice::slice_to_vec(sep);
            out.append(&mut s);
        }
        let mut p = piece;
        out.append(&mut p);
        i = i + 1;
    }
    proof {
        assert(views.take(list@.len() as int) == views);
    }
}

/// The rows `rows`, their cells separated by `|`, the rows by newlines.
pub open spec fn rows_text(rows: Seq<Seq<Seq<char>>>) -> Seq<char> {
    join(rows.map_values(|r: Seq<Seq<char>>| join(r, "|"@)), "\n"@)
}

/// The texts of each row of `rows`.
pub open spec fn row_views(rows: Seq<Vec<String>>) -> Seq<Seq<Seq<char>>> {
    rows.map_values(|r: Vec<String>| string_views(r@))
}

/// Renders result rows: cells separated by `|`, rows by newlines.
pub fn render_rows(rows: &Vec<Vec<String>>) -> (r: String)
    ensures
        r@ == rows_text(row_views(rows@)),
{
    let bar = chars_of("|");
    let newline = chars_of("\n");
    let ghost lines = row_views(rows@).map_values(|r: Seq<Seq<char>>| join(r, "|"@));
    let mut out: Vec<char> = Vec::new();
    let mut i: usize = 0;
    proof {
        assert(lines.take(0) == Seq::<Seq<char>>::empty());
    }
    while i < rows.len()
        invariant
            i <= rows@.len(),
            bar@ == "|"@,
            newline@ == "\n"@,
            lines == row_views(rows@).map_values(|r: Seq<Seq<char>>| join(r, "|"@)),
            out@ == join(lines.take(i as int), "\n"@),
        decreases rows@.len() - i,
    {
        assert(lines.take(i + 1).drop_last() == lines.take(i as int));
        if i > 0 {
            let mut s = newline.clone();
            assert(s@ == newline@);
            out.append(&mut s);
        }
        let ghost before = out@;
        push_joined(rows[i].as_slice(), bar.as_slice(), &mut out);
        assert(lines.take(i + 1).last() == join(string_views(rows@[i as int]@), "|"@));
        i = i + 1;
    }
    proof {
        assert(lines.take(rows@.len() as int) == lines);
    }
    string_from_chars(out.as_slice())
}

} // verus!
