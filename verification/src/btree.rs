//! Table b-tree cells and the walk over a table's b-tree.

use vstd::prelude::*;
use crate::common::{varint, varint_spec, varint_len_from, be7, cast_unsigned, as_unsigned64, lemma_varint_bounds};
use crate::error::{QueryError, QueryErrorView, StorageError, StorageErrorView};
use crate::page::{PageType, page_bytes, page_header, page_header_spec, read_page, be32};
use crate::record::{Column, ColumnView, Record, SerialType, parse_column};
use crate::schema::{RecordType, RecordTypeView};

verus! {

/// Table b-tree leaf cell: payload size varint, rowid varint, then the record.
/// Overflow pages are not followed.
#[derive(Debug)]
pub struct TableLeafCell {
    pub rowid: i64,
    pub record: Record,
}

/// A leaf cell's rowid and column values.
pub struct CellView {
    pub rowid: i64,
    pub values: Seq<ColumnView>,
}

impl View for TableLeafCell {
    type V = CellView;

    open spec fn view(&self) -> CellView {
        CellView { rowid: self.rowid, values: self.record@ }
    }
}

impl DeepView for TableLeafCell {
    type V = CellView;

    open spec fn deep_view(&self) -> CellView {
        self@
    }
}

/// `s` from `off` on.
pub open spec fn from(s: Seq<u8>, off: nat) -> Seq<u8> {
    s.subrange(off as int, s.len() as int)
}

/// The serial types of a record header: varints from `off` on, up to the
/// header's end `end` (the last one may run past it), and where they stop.
pub open spec fn header_types(buf: Seq<u8>, off: nat, end: nat) -> Result<(Seq<SerialType>, nat), StorageError>
    decreases buf.len() - off,
{
    if off >= end || off > buf.len() {
        Ok((Seq::empty(), off))
    } else {
        match varint_spec(from(buf, off)) {
            None => Err(StorageError::TruncatedVarint),
            Some((code, n)) => {
                proof { lemma_varint_bounds(from(buf, off)); }
                match SerialType::from_code(as_unsigned64(code as int) as u64) {
                    Err(e) => Err(e),
                    Ok(t) => match header_types(buf, (off + n) as nat, end) {
                        Err(e) => Err(e),
                        Ok((ts, o)) => Ok((seq![t] + ts, o)),
                    },
                }
            },
        }
    }
}

/// The serial types that the bytes `codes` name, one byte per code.
pub open spec fn one_byte_types(codes: Seq<u8>) -> Result<Seq<SerialType>, StorageError>
    decreases codes.len(),
{
    if codes.len() == 0 {
        Ok(Seq::empty())
    } else {
        match SerialType::from_code(codes[0] as u64) {
            Err(e) => Err(e),
            Ok(t) => match one_byte_types(codes.drop_first()) {
                Err(e) => Err(e),
                Ok(ts) => Ok(seq![t] + ts),
            },
        }
    }
}

/// A record header whose serial type codes are all below 128 (so each
/// takes one byte) holds one serial type per byte, read in order, and ends
/// exactly at the header's end; the first reserved code is the error.
pub proof fn lemma_one_byte_header(buf: Seq<u8>, off: nat, end: nat)
    requires
        off <= end <= buf.len(),
        forall|k: int| off <= k < end ==> buf[k] < 128,
    ensures
        header_types(buf, off, end) == match one_byte_types(buf.subrange(off as int, end as int)) {
            Ok(ts) => Ok::<(Seq<SerialType>, nat), StorageError>((ts, end)),
            Err(e) => Err(e),
        },
    decreases end - off,
{
    let codes = buf.subrange(off as int, end as int);
    if off < end {
        let s = from(buf, off);
        assert(s[0] == buf[off as int]);
        assert(varint_len_from(s, 0) == Some(1nat));
        assert(be7(s, 1) == s[0] as nat) by {
            assert(be7(s, 0) == 0);
        }
        assert(varint_spec(s) == Some((buf[off as int] as i64, 1usize)));
        assert(as_unsigned64(buf[off as int] as int) as u64 == buf[off as int] as u64);
        lemma_one_byte_header(buf, off + 1, end);
        assert(codes.drop_first() =~= buf.subrange(off + 1int, end as int));
    } else {
        assert(codes =~= Seq::<u8>::empty());
    }
}

/// The column values of a record body, one per serial type in `types`, from
/// `off` on, none reaching past the record's end `end`, and where they stop.
pub open spec fn body_values(buf: Seq<u8>, types: Seq<SerialType>, off: nat, end: nat) -> Result<(Seq<ColumnView>, nat), StorageError>
    decreases types.len(),
{
    if types.len() == 0 {
        Ok((Seq::empty(), off))
    } else if off + types[0].spec_size() > end {
        Err(StorageError::RecordOverrun)
    } else {
        match parse_column(from(buf, off), types[0]) {
            Err(e) => Err(e),
            Ok((v, n)) => match body_values(buf, types.drop_first(), off + n, end) {
                Err(e) => Err(e),
                Ok((vs, o)) => Ok((seq![v] + vs, o)),
            },
        }
    }
}

/// The cell with rowid `rowid` whose body decodes to `body`.
pub open spec fn cell_from_body(rowid: i64, body: Result<(Seq<ColumnView>, nat), StorageError>) -> Result<(CellView, nat), StorageError> {
    match body {
        Err(e) => Err(e),
        Ok((vs, o)) => Ok((CellView { rowid, values: vs }, o)),
    }
}

/// The cell with rowid `rowid` whose record header decodes to `header` and
/// whose record ends at `record_end`.
pub open spec fn cell_from_header(buf: Seq<u8>, rowid: i64, record_end: nat, header: Result<(Seq<SerialType>, nat), StorageError>) -> Result<(CellView, nat), StorageError> {
    match header {
        Err(e) => Err(e),
        Ok((types, o)) => cell_from_body(rowid, body_values(buf, types, o, record_end)),
    }
}

/// A table b-tree leaf cell at the start of `buf`: its rowid, its values,
/// and the offset where its record ends; or the first error on the way.
pub open spec fn leaf_cell(buf: Seq<u8>) -> Result<(CellView, nat), StorageError> {
    match varint_spec(buf) {
        None => Err(StorageError::TruncatedVarint),
        Some((payload, n1)) => match varint_spec(from(buf, n1 as nat)) {
            None => Err(StorageError::TruncatedVarint),
            Some((rowid, n2)) => {
                let off = n1 + n2;
                if !(0 <= payload && off + payload <= usize::MAX) {
                    Err(StorageError::OutOfRange { what: "payload size", value: payload })
                } else {
                    match varint_spec(from(buf, off as nat)) {
                        None => Err(StorageError::TruncatedVarint),
                        Some((hdr_size, n3)) => {
                            if !(0 <= hdr_size && off + hdr_size <= usize::MAX) {
                                Err(StorageError::OutOfRange { what: "record header size", value: hdr_size })
                            } else {
                                cell_from_header(
                                    buf,
                                    rowid,
                                    (off + payload) as nat,
                                    header_types(buf, (off + n3) as nat, (off + hdr_size) as nat),
                                )
                            }
                        },
                    }
                }
            },
        },
    }
}

/// `r` is the outcome `s` describes.
pub open spec fn cell_outcome(
    r: Result<(TableLeafCell, usize), StorageError>,
    s: Result<(CellView, nat), StorageError>,
) -> bool {
    match (r, s) {
        (Ok((c, n)), Ok((v, m))) => c@ == v && n == m,
        (Err(e), Err(f)) => e == f,
        _ => false,
    }
}

/// Parses the table b-tree leaf cell at the start of `buf`: returns the
/// cell and the offset where its record ends.
pub fn parse_leaf_cell(buf: &[u8]) -> (r: Result<(TableLeafCell, usize), StorageError>)
    ensures
        cell_outcome(r, leaf_cell(buf@)),
        r matches Ok((_, n)) ==> n <= buf@.len(),
{
    let len = buf.len();
    proof { lemma_varint_bounds(buf@); }
    let (payload_size, n) = varint(buf)?;
    let mut off: usize = n;
    proof { lemma_varint_bounds(from(buf@, off as nat)); }
    let (rowid, n) = varint(&buf[off..len])?;
    off = off + n;
    if payload_size < 0 || payload_size as u64 > (usize::MAX - off) as u64 {
        return Err(StorageError::OutOfRange { what: "payload size", value: payload_size });
    }
    let record_end_off = off + payload_size as usize;
    proof { lemma_varint_bounds(from(buf@, off as nat)); }
    let (hdr_size, n) = varint(&buf[off..len])?;
    if hdr_size < 0 || hdr_size as u64 > (usize::MAX - off) as u64 {
        return Err(StorageError::OutOfRange { what: "record header size", value: hdr_size });
    }
    let record_hdr_end_off = off + hdr_size as usize;
    off = off + n;
    let ghost hdr_start = off as nat;

    let mut serial_types: Vec<SerialType> = Vec::new();
    while off < record_hdr_end_off
        invariant
            off <= len == buf@.len(),
            leaf_cell(buf@) == cell_from_header(buf@, rowid, record_end_off as nat, header_types(buf@, hdr_start, record_hdr_end_off as nat)),
            header_types(buf@, hdr_start, record_hdr_end_off as nat) == match header_types(buf@, off as nat, record_hdr_end_off as nat) {
                Ok((ts, o)) => Ok((serial_types@ + ts, o)),
                Err(e) => Err::<(Seq<SerialType>, nat), StorageError>(e),
            },
        decreases len - off,
    {
        proof { lemma_varint_bounds(from(buf@, off as nat)); }
        let (s_type, n) = varint(&buf[off..len])?;
        let serial_type = SerialType::try_from(cast_unsigned(s_type))?;
        let ghost before = serial_types@;
        serial_types.push(serial_type);
        off = off + n;
        proof {
            assert(before + (seq![serial_type] + Seq::<SerialType>::empty()) == serial_types@);
            match header_types(buf@, off as nat, record_hdr_end_off as nat) {
                Ok((ts, o)) => { assert(before + (seq![serial_type] + ts) == serial_types@ + ts); },
                Err(e) => {},
            }
        }
    }
    proof {
        assert(serial_types@ + Seq::<SerialType>::empty() == serial_types@);
    }

    let ntypes = serial_types.len();
    let mut values: Vec<Column> = Vec::new();
    let mut i: usize = 0;
    let ghost body_start = off as nat;
    proof {
        assert(serial_types@.subrange(0, ntypes as int) == serial_types@);
        assert(values.deep_view() == Seq::<ColumnView>::empty());
        match body_values(buf@, serial_types@, body_start, record_end_off as nat) {
            Ok((vs, o)) => { assert(Seq::<ColumnView>::empty() + vs == vs); },
            Err(e) => {},
        }
    }
    while i < ntypes
        invariant
            off <= len == buf@.len(),
            i <= ntypes == serial_types@.len(),
            leaf_cell(buf@) == cell_from_body(rowid, body_values(buf@, serial_types@, body_start, record_end_off as nat)),
            body_values(buf@, serial_types@, body_start, record_end_off as nat) == match body_values(buf@, serial_types@.subrange(i as int, ntypes as int), off as nat, record_end_off as nat) {
                Ok((vs, o)) => Ok((values.deep_view() + vs, o)),
                Err(e) => Err::<(Seq<ColumnView>, nat), StorageError>(e),
            },
        decreases ntypes - i,
    {
        let s_type = serial_types[i];
        let ghost rest = serial_types@.subrange(i as int, ntypes as int);
        assert(rest[0] == s_type);
        assert(rest.drop_first() == serial_types@.subrange(i + 1, ntypes as int));
        if off > record_end_off || s_type.size() > record_end_off - off {
            return Err(StorageError::RecordOverrun);
        }
        let (col, n) = Column::parse(&buf[off..len], s_type)?;
        let ghost before = values.deep_view();
        values.push(col);
        off = off + n;
        i = i + 1;
        proof {
            assert(values.deep_view() == before + seq![col@]);
            match body_values(buf@, serial_types@.subrange(i as int, ntypes as int), off as nat, record_end_off as nat) {
                Ok((vs, o)) => { assert(before + (seq![col@] + vs) == values.deep_view() + vs); },
                Err(e) => {},
            }
        }
    }
    proof {
        assert(serial_types@.subrange(ntypes as int, ntypes as int) == Seq::<SerialType>::empty());
        assert(values.deep_view() + Seq::<ColumnView>::empty() == values.deep_view());
    }
    let record = Record { values };
    let cell_parsed = TableLeafCell { rowid, record };
    Ok((cell_parsed, off))
}


/// Whether the IEEE-754 double with bits `b` is a NaN.
pub open spec fn float_is_nan(b: u64) -> bool {
    (b / 0x10_0000_0000_0000) % 0x800 == 0x7ff && b % 0x10_0000_0000_0000 != 0
}

/// Whether the IEEE-754 double with bits `b` is a zero (of either sign).
pub open spec fn float_is_zero(b: u64) -> bool {
    b % 0x8000_0000_0000_0000 == 0
}

/// IEEE-754 equality of the doubles with bits `a` and `b`.
pub open spec fn float_eq(a: u64, b: u64) -> bool {
    !float_is_nan(a) && !float_is_nan(b) && (a == b || (float_is_zero(a) && float_is_zero(b)))
}

/// Equality of column values: same kind and equal contents, floats compared
/// as IEEE-754 doubles.
pub open spec fn column_equal(a: ColumnView, b: ColumnView) -> bool {
    match (a, b) {
        (ColumnView::Null, ColumnView::Null) => true,
        (ColumnView::Int(x), ColumnView::Int(y)) => x == y,
        (ColumnView::Float(x), ColumnView::Float(y)) => float_eq(x, y),
        (ColumnView::Blob(x), ColumnView::Blob(y)) => x == y,
        (ColumnView::Text(x), ColumnView::Text(y)) => x == y,
        _ => false,
    }
}

fn float_bits_eq(a: u64, b: u64) -> (r: bool)
    ensures
        r == float_eq(a, b),
{
    let a_nan = (a / 0x10_0000_0000_0000) % 0x800 == 0x7ff && a % 0x10_0000_0000_0000 != 0;
    let b_nan = (b / 0x10_0000_0000_0000) % 0x800 == 0x7ff && b % 0x10_0000_0000_0000 != 0;
    !a_nan && !b_nan && (a == b || (a % 0x8000_0000_0000_0000 == 0 && b % 0x8000_0000_0000_0000 == 0))
}

fn bytes_eq(a: &Vec<u8>, b: &Vec<u8>) -> (r: bool)
    ensures
        r == (a@ == b@),
{
    if a.len() != b.len() {
        return false;
    }
    let mut i: usize = 0;
    while i < a.len()
        invariant
            i <= a@.len() == b@.len(),
            a@.take(i as int) == b@.take(i as int),
        decreases a@.len() - i,
    {
        if a[i] != b[i] {
            return false;
        }
        i = i + 1;
        proof {
            assert(a@.take(i as int) =~= b@.take(i as int));
        }
    }
    proof {
        assert(a@.take(a@.len() as int) == a@);
        assert(b@.take(b@.len() as int) == b@);
    }
    true
}

/// Whether two columns hold equal values.
pub fn column_eq(a: &Column, b: &Column) -> (r: bool)
    ensures
        r == column_equal(a@, b@),
{
    match (a, b) {
        (Column::Null, Column::Null) => true,
        (Column::Int(x), Column::Int(y)) => *x == *y,
        (Column::Float(x), Column::Float(y)) => float_bits_eq(*x, *y),
        (Column::Blob(x), Column::Blob(y)) => bytes_eq(x, y),
        (Column::Text(x), Column::Text(y)) => *x == *y,
        _ => false,
    }
}

/// Whether a row with values `values` meets every condition of `keep`: its
/// column `idx` exists and equals `expected`, for each `(idx, expected)`.
pub open spec fn keeps(values: Seq<ColumnView>, keep: Seq<(usize, ColumnView)>) -> bool {
    forall|k: int| 0 <= k < keep.len() ==> (#[trigger] keep[k]).0 < values.len() && column_equal(values[keep[k].0 as int], keep[k].1)
}

/// A row meets a list of conditions exactly when it meets each one of
/// them: every condition's column exists in the row and holds the
/// condition's value. One unmet condition is enough to drop the row.
pub proof fn lemma_keeps_every_condition(values: Seq<ColumnView>, keep: Seq<(usize, ColumnView)>)
    ensures
        keeps(values, keep) <==> (forall|k: int| 0 <= k < keep.len()
            ==> (#[trigger] keep[k]).0 < values.len() && column_equal(values[keep[k].0 as int], keep[k].1)),
        forall|k: int| 0 <= k < keep.len() && !((#[trigger] keep[k]).0 < values.len()
            && column_equal(values[keep[k].0 as int], keep[k].1)) ==> !keeps(values, keep),
        keeps(values, Seq::empty()),
{
}

/// Two lists of conditions, one after the other, keep a row exactly when
/// each list keeps it.
pub proof fn lemma_keeps_concat(values: Seq<ColumnView>, a: Seq<(usize, ColumnView)>, b: Seq<(usize, ColumnView)>)
    ensures
        keeps(values, a + b) == (keeps(values, a) && keeps(values, b)),
{
    lemma_keeps_every_condition(values, a);
    lemma_keeps_every_condition(values, b);
    lemma_keeps_every_condition(values, a + b);
    if keeps(values, a) && keeps(values, b) {
        assert forall|k: int| 0 <= k < (a + b).len() implies (#[trigger] (a + b)[k]).0 < values.len()
            && column_equal(values[(a + b)[k].0 as int], (a + b)[k].1) by {
            if k < a.len() {
                assert((a + b)[k] == a[k]);
            } else {
                assert((a + b)[k] == b[k - a.len()]);
            }
        }
    }
    if keeps(values, a + b) {
        assert forall|k: int| 0 <= k < a.len() implies (#[trigger] a[k]).0 < values.len()
            && column_equal(values[a[k].0 as int], a[k].1) by {
            assert((a + b)[k] == a[k]);
        }
        assert forall|k: int| 0 <= k < b.len() implies (#[trigger] b[k]).0 < values.len()
            && column_equal(values[b[k].0 as int], b[k].1) by {
            assert((a + b)[k + a.len()] == b[k]);
        }
    }
}

/// The views of the (column index, value) pairs `v`.
pub open spec fn condition_views(v: Seq<(usize, Column)>) -> Seq<(usize, ColumnView)> {
    v.map_values(|p: (usize, Column)| (p.0, p.1@))
}

/// Whether the row `values` meets every condition of `keep`.
pub fn keep_row(values: &Vec<Column>, keep: &Vec<(usize, Column)>) -> (r: bool)
    ensures
        r == keeps(values.deep_view(), condition_views(keep@)),
        r == (forall|k: int| 0 <= k < keep@.len() ==> (#[trigger] keep@[k]).0 < values@.len()
            && column_equal(values@[keep@[k].0 as int]@, keep@[k].1@)),
{
    proof {
        lemma_keeps_every_condition(values.deep_view(), condition_views(keep@));
        let kv = condition_views(keep@);
        assert forall|k: int| 0 <= k < keep@.len() implies #[trigger] kv[k] == (keep@[k].0, keep@[k].1@) by {}
        assert(kv.len() == keep@.len());
        assert(values.deep_view().len() == values@.len());
        assert forall|i: int| 0 <= i < values@.len() implies #[trigger] values.deep_view()[i] == values@[i]@ by {}
    }
    let ghost kv = condition_views(keep@);
    let mut k: usize = 0;
    while k < keep.len()
        invariant
            k <= keep@.len(),
            kv == condition_views(keep@),
            forall|j: int| 0 <= j < k ==> (#[trigger] kv[j]).0 < values.deep_view().len() && column_equal(values.deep_view()[kv[j].0 as int], kv[j].1),
        decreases keep@.len() - k,
    {
        let idx = keep[k].0;
        assert(kv[k as int] == (idx, keep@[k as int].1@));
        if idx >= values.len() {
            return false;
        }
        if !column_eq(&values[idx], &keep[k].1) {
            return false;
        }
        k = k + 1;
    }
    proof {
        assert forall|j: int| 0 <= j < keep@.len() implies (#[trigger] keep@[j]).0 < values@.len()
            && column_equal(values@[keep@[j].0 as int]@, keep@[j].1@) by {
            assert(kv[j] == (keep@[j].0, keep@[j].1@));
            assert(values.deep_view()[kv[j].0 as int] == values@[keep@[j].0 as int]@);
        }
    }
    true
}

/// The cell `c` with the value of its rowid-alias column (when the record
/// has that column) replaced by the rowid.
pub open spec fn with_rowid(c: CellView, alias: Option<usize>) -> CellView {
    match alias {
        Some(i) => if i < c.values.len() {
            CellView { rowid: c.rowid, values: c.values.update(i as int, ColumnView::Int(c.rowid)) }
        } else {
            c
        },
        None => c,
    }
}

/// Which b-tree a walk follows.
#[derive(Debug, Clone, Copy, PartialEq, Eq, Structural)]
pub enum TreeKind {
    Table,
    Index,
}

impl TreeKind {
    pub open spec fn leaf(self) -> PageType {
        match self {
            TreeKind::Table => PageType::LeafTable,
            TreeKind::Index => PageType::LeafIndex,
        }
    }

    pub open spec fn interior(self) -> PageType {
        match self {
            TreeKind::Table => PageType::InteriorTable,
            TreeKind::Index => PageType::InteriorIndex,
        }
    }
}

/// The cells at the pointers `ptrs` (from the `i`-th on) of the leaf page
/// `page`, with the rowid alias filled in, that meet `keep`.
pub open spec fn leaf_cells(page: Seq<u8>, ptrs: Seq<u16>, i: nat, alias: Option<usize>, keep: Seq<(usize, ColumnView)>) -> Result<Seq<CellView>, StorageErrorView>
    decreases ptrs.len() - i,
{
    if i >= ptrs.len() {
        Ok(Seq::empty())
    } else {
        let p = ptrs[i as int];
        if p > page.len() {
            Err(StorageErrorView::Truncated { need: p as usize, have: page.len() as usize })
        } else {
            match leaf_cell(from(page, p as nat)) {
                Err(e) => Err(e@),
                Ok((c, _)) => {
                    let c2 = with_rowid(c, alias);
                    match leaf_cells(page, ptrs, i + 1, alias, keep) {
                        Err(e) => Err(e),
                        Ok(cs) => Ok(if keeps(c2.values, keep) { seq![c2] + cs } else { cs }),
                    }
                },
            }
        }
    }
}

/// The page index of the child whose number (from 1) is `child`.
pub open spec fn child_index(child: u32) -> Result<usize, StorageErrorView> {
    if child == 0 {
        Err(StorageErrorView::OutOfRange { what: "child page number"@, value: 0 })
    } else {
        Ok((child - 1) as usize)
    }
}

/// The child page index that the interior cell at `ptr` of `page` points to.
pub open spec fn child_at(page: Seq<u8>, ptr: nat) -> Result<usize, StorageErrorView> {
    if ptr + 4 > page.len() {
        Err(StorageErrorView::Truncated { need: (ptr + 4) as usize, have: page.len() as usize })
    } else {
        child_index(be32(page[ptr as int], page[ptr + 1int], page[ptr + 2int], page[ptr + 3int]))
    }
}

/// The most pages a walk descends through before it takes the tree for
/// cyclic: one more than the database has pages.
pub open spec fn max_depth(db_len: nat, page_size: u16) -> nat {
    let pages = if page_size == 0 { 0 } else { db_len / page_size as nat };
    if pages < usize::MAX { pages + 1 } else { pages }
}

/// The cells (that meet `keep`, with the rowid alias filled in) of the
/// b-tree of kind `kind` rooted at page `page_num`, descending at most
/// `fuel` pages deep, in key order.
pub open spec fn walk_spec(db: Seq<u8>, ps: u16, kind: TreeKind, page_num: usize, alias: Option<usize>, keep: Seq<(usize, ColumnView)>, fuel: nat) -> Result<Seq<CellView>, StorageErrorView>
    decreases fuel, 0nat,
{
    if fuel == 0 {
        Err(StorageErrorView::TooDeep { page: page_num })
    } else {
        match page_bytes(db, ps, page_num) {
            Err(e) => Err(e@),
            Ok(page) => match page_header_spec(page, page_num) {
                Err(e) => Err(e@),
                Ok(h) => if h.page_type == kind.leaf() {
                    leaf_cells(page, h.cell_pointers, 0, alias, keep)
                } else if h.page_type == kind.interior() {
                    children_spec(db, ps, kind, page, h.cell_pointers, 0, h.right_most_child, alias, keep, (fuel - 1) as nat)
                } else {
                    Err(StorageErrorView::InvalidPageType(h.page_type.spec_code()))
                },
            },
        }
    }
}

/// The cells of the subtrees that the interior page `page` points to, from
/// its `i`-th cell on, then its right-most child.
pub open spec fn children_spec(db: Seq<u8>, ps: u16, kind: TreeKind, page: Seq<u8>, ptrs: Seq<u16>, i: nat, right: Option<u32>, alias: Option<usize>, keep: Seq<(usize, ColumnView)>, fuel: nat) -> Result<Seq<CellView>, StorageErrorView>
    decreases fuel, (if i <= ptrs.len() { ptrs.len() + 1 - i } else { 1int }),
{
    if i >= ptrs.len() {
        match right {
            None => Err(StorageErrorView::InvalidPageType(kind.interior().spec_code())),
            Some(c) => match child_index(c) {
                Err(e) => Err(e),
                Ok(child) => walk_spec(db, ps, kind, child, alias, keep, fuel),
            },
        }
    } else {
        match child_at(page, ptrs[i as int] as nat) {
            Err(e) => Err(e),
            Ok(child) => match walk_spec(db, ps, kind, child, alias, keep, fuel) {
                Err(e) => Err(e),
                Ok(cs) => match children_spec(db, ps, kind, page, ptrs, i + 1, right, alias, keep, fuel) {
                    Err(e) => Err(e),
                    Ok(rest) => Ok(cs + rest),
                },
            },
        }
    }
}

/// The walk of the subtree whose root the interior cell at `ptr` of `page`
/// points to.
pub open spec fn child_walk(db: Seq<u8>, ps: u16, kind: TreeKind, page: Seq<u8>, ptr: u16, alias: Option<usize>, keep: Seq<(usize, ColumnView)>, fuel: nat) -> Result<Seq<CellView>, StorageErrorView> {
    match child_at(page, ptr as nat) {
        Err(e) => Err(e),
        Ok(child) => walk_spec(db, ps, kind, child, alias, keep, fuel),
    }
}

/// The walk of the subtree under an interior page's right-most child `right`.
pub open spec fn right_walk(db: Seq<u8>, ps: u16, kind: TreeKind, right: Option<u32>, alias: Option<usize>, keep: Seq<(usize, ColumnView)>, fuel: nat) -> Result<Seq<CellView>, StorageErrorView> {
    match right {
        None => Err(StorageErrorView::InvalidPageType(kind.interior().spec_code())),
        Some(c) => match child_index(c) {
            Err(e) => Err(e),
            Ok(child) => walk_spec(db, ps, kind, child, alias, keep, fuel),
        },
    }
}

#[verifier::spinoff_prover]
#[verifier::rlimit(100)]
proof fn lemma_children_flatten(db: Seq<u8>, ps: u16, kind: TreeKind, page: Seq<u8>, ptrs: Seq<u16>, i: nat, right: Option<u32>, alias: Option<usize>, keep: Seq<(usize, ColumnView)>, fuel: nat)
    requires
        i <= ptrs.len(),
    ensures
        children_spec(db, ps, kind, page, ptrs, i, right, alias, keep, fuel) is Ok <==> (
            (forall|k: int| i <= k < ptrs.len() ==> (#[trigger] child_walk(db, ps, kind, page, ptrs[k], alias, keep, fuel)) is Ok)
            && right_walk(db, ps, kind, right, alias, keep, fuel) is Ok),
        children_spec(db, ps, kind, page, ptrs, i, right, alias, keep, fuel) is Ok ==>
            children_spec(db, ps, kind, page, ptrs, i, right, alias, keep, fuel)->Ok_0
                == Seq::new((ptrs.len() - i) as nat, |k: int| child_walk(db, ps, kind, page, ptrs[i + k], alias, keep, fuel)->Ok_0).flatten()
                    + right_walk(db, ps, kind, right, alias, keep, fuel)->Ok_0,
    decreases ptrs.len() - i,
{
    let rw = right_walk(db, ps, kind, right, alias, keep, fuel);
    let whole = Seq::new((ptrs.len() - i) as nat, |k: int| child_walk(db, ps, kind, page, ptrs[i + k], alias, keep, fuel)->Ok_0);
    if i == ptrs.len() {
        assert(whole.flatten() =~= Seq::<CellView>::empty());
        if let Ok(r) = rw {
            assert(Seq::<CellView>::empty() + r =~= r);
        }
    } else {
        lemma_children_flatten(db, ps, kind, page, ptrs, i + 1, right, alias, keep, fuel);
        let rest = Seq::new((ptrs.len() - (i + 1)) as nat, |k: int| child_walk(db, ps, kind, page, ptrs[(i + 1) + k], alias, keep, fuel)->Ok_0);
        assert(whole.drop_first() =~= rest);
        assert(whole.flatten() == whole.first() + rest.flatten());
        let first = child_walk(db, ps, kind, page, ptrs[i as int], alias, keep, fuel);
        assert(whole.first() == first->Ok_0);
        if children_spec(db, ps, kind, page, ptrs, i, right, alias, keep, fuel) is Ok {
            assert(first is Ok);
            assert(first->Ok_0 + (rest.flatten() + rw->Ok_0) =~= (first->Ok_0 + rest.flatten()) + rw->Ok_0);
        }
        if (forall|k: int| i <= k < ptrs.len() ==> (#[trigger] child_walk(db, ps, kind, page, ptrs[k], alias, keep, fuel)) is Ok) && rw is Ok {
            assert(first is Ok);
        }
    }
}

/// The walk of an interior page collects, in order, the cells of the
/// subtree under each of its cell pointers, then those under its
/// right-most child; it succeeds exactly when every one of these walks does.
pub proof fn lemma_interior_walk(db: Seq<u8>, ps: u16, kind: TreeKind, page_num: usize, alias: Option<usize>, keep: Seq<(usize, ColumnView)>, fuel: nat)
    requires
        fuel > 0,
        page_bytes(db, ps, page_num) is Ok,
        page_header_spec(page_bytes(db, ps, page_num)->Ok_0, page_num) matches Ok(h) && h.page_type == kind.interior(),
    ensures ({
        let page = page_bytes(db, ps, page_num)->Ok_0;
        let h = page_header_spec(page, page_num)->Ok_0;
        let ptrs = h.cell_pointers;
        let f = (fuel - 1) as nat;
        let w = walk_spec(db, ps, kind, page_num, alias, keep, fuel);
        &&& w is Ok <==> ((forall|k: int| 0 <= k < ptrs.len() ==> (#[trigger] child_walk(db, ps, kind, page, ptrs[k], alias, keep, f)) is Ok)
            && right_walk(db, ps, kind, h.right_most_child, alias, keep, f) is Ok)
        &&& w is Ok ==> w->Ok_0 == Seq::new(ptrs.len(), |k: int| child_walk(db, ps, kind, page, ptrs[k], alias, keep, f)->Ok_0).flatten()
            + right_walk(db, ps, kind, h.right_most_child, alias, keep, f)->Ok_0
    }),
{
    let page = page_bytes(db, ps, page_num)->Ok_0;
    let h = page_header_spec(page, page_num)->Ok_0;
    let ptrs = h.cell_pointers;
    let f = (fuel - 1) as nat;
    assert(kind.leaf() != kind.interior());
    lemma_children_flatten(db, ps, kind, page, ptrs, 0, h.right_most_child, alias, keep, f);
    assert(Seq::new(ptrs.len(), |k: int| child_walk(db, ps, kind, page, ptrs[k], alias, keep, f)->Ok_0)
        =~= Seq::new((ptrs.len() - 0) as nat, |k: int| child_walk(db, ps, kind, page, ptrs[0 + k], alias, keep, f)->Ok_0));
}

/// `r`, with the cells `before` and `after`, is the outcome `s` describes.
/// Whatever the outcome, the cells that were there stay, in front: a walk
/// only appends.
pub open spec fn walk_outcome(r: Result<(), StorageError>, before: Seq<CellView>, after: Seq<CellView>, s: Result<Seq<CellView>, StorageErrorView>) -> bool {
    before.is_prefix_of(after) && match s {
        Ok(cs) => r is Ok && after == before + cs,
        Err(e) => r matches Err(f) && f@ == e,
    }
}

proof fn lemma_prefix_trans(a: Seq<CellView>, b: Seq<CellView>, c: Seq<CellView>)
    requires
        a.is_prefix_of(b),
        b.is_prefix_of(c),
    ensures
        a.is_prefix_of(c),
{
    assert(a =~= c.subrange(0, a.len() as int)) by {
        assert forall|k: int| 0 <= k < a.len() implies a[k] == c[k] by {
            assert(a[k] == b[k]);
            assert(b[k] == c[k]);
        }
    }
}

fn child_index_exec(child: u32) -> (r: Result<usize, StorageError>)
    ensures
        match child_index(child) {
            Ok(i) => r == Ok::<usize, StorageError>(i),
            Err(e) => r matches Err(f) && f@ == e,
        },
{
    if child == 0 {
        Err(StorageError::OutOfRange { what: "child page number", value: 0 })
    } else {
        Ok((child - 1) as usize)
    }
}

fn leaf_page_cells(page: &Vec<u8>, ptrs: &Vec<u16>, alias: Option<usize>, keep: &Vec<(usize, Column)>, cells: &mut Vec<TableLeafCell>) -> (r: Result<(), StorageError>)
    ensures
        walk_outcome(r, old(cells).deep_view(), final(cells).deep_view(), leaf_cells(page@, ptrs@, 0, alias, condition_views(keep@))),
{
    let ghost kv = condition_views(keep@);
    let ghost start = cells.deep_view();
    let len = page.len();
    let mut i: usize = 0;
    while i < ptrs.len()
        invariant
            len == page@.len(),
            i <= ptrs@.len(),
            kv == condition_views(keep@),
            leaf_cells(page@, ptrs@, 0, alias, kv) == match leaf_cells(page@, ptrs@, i as nat, alias, kv) {
                Ok(cs) => Ok(cells.deep_view().subrange(start.len() as int, cells.deep_view().len() as int) + cs),
                Err(e) => Err::<Seq<CellView>, StorageErrorView>(e),
            },
            start.len() <= cells.deep_view().len(),
            cells.deep_view().subrange(0, start.len() as int) == start,
            start.is_prefix_of(cells.deep_view()),
            start == old(cells).deep_view(),
        decreases ptrs@.len() - i,
    {
        let ptr = ptrs[i] as usize;
        if ptr > len {
            return Err(StorageError::Truncated { need: ptr, have: len });
        }
        let (mut cell, _) = parse_leaf_cell(&page.as_slice()[ptr..len])?;
        let ghost parsed = cell@;
        match alias {
            Some(a) => {
                if a < cell.record.values.len() {
                    cell.record.values[a] = Column::Int(cell.rowid);
                    proof {
                        assert(cell.record.values.deep_view() =~= parsed.values.update(a as int, ColumnView::Int(parsed.rowid)));
                    }
                }
            },
            None => {},
        }
        assert(cell@ == with_rowid(parsed, alias));
        let ghost before = cells.deep_view();
        if keep_row(&cell.record.values, keep) {
            cells.push(cell);
            proof {
                assert(cells.deep_view() == before.push(with_rowid(parsed, alias)));
                assert(cells.deep_view().subrange(0, start.len() as int) =~= before.subrange(0, start.len() as int));
                match leaf_cells(page@, ptrs@, (i + 1) as nat, alias, kv) {
                    Ok(cs) => {
                        assert(before.subrange(start.len() as int, before.len() as int) + (seq![with_rowid(parsed, alias)] + cs)
                            =~= cells.deep_view().subrange(start.len() as int, cells.deep_view().len() as int) + cs);
                    },
                    Err(e) => {},
                }
            }
        }
        i = i + 1;
    }
    proof {
        assert(start + cells.deep_view().subrange(start.len() as int, cells.deep_view().len() as int) =~= cells.deep_view());
        assert(cells.deep_view().subrange(start.len() as int, cells.deep_view().len() as int) + Seq::<CellView>::empty()
            == cells.deep_view().subrange(start.len() as int, cells.deep_view().len() as int));
    }
    Ok(())
}

#[verifier::spinoff_prover]
#[verifier::rlimit(40)]
fn walk_tree(db: &[u8], page_size: u16, kind: TreeKind, page_num: usize, alias: Option<usize>, keep: &Vec<(usize, Column)>, cells: &mut Vec<TableLeafCell>, fuel: usize) -> (r: Result<(), StorageError>)
    ensures
        walk_outcome(r, old(cells).deep_view(), final(cells).deep_view(), walk_spec(db@, page_size, kind, page_num, alias, condition_views(keep@), fuel as nat)),
    decreases fuel,
{
    if fuel == 0 {
        return Err(StorageError::TooDeep { page: page_num });
    }
    let page = read_page(db, page_size, page_num)?;
    let header = page_header(page.as_slice(), page_num)?;
    let page_type = *header.page_type();
    let right = header.right_most_child();
    let is_leaf = match (kind, page_type) {
        (TreeKind::Table, PageType::LeafTable) | (TreeKind::Index, PageType::LeafIndex) => true,
        _ => false,
    };
    let is_interior = match (kind, page_type) {
        (TreeKind::Table, PageType::InteriorTable) | (TreeKind::Index, PageType::InteriorIndex) => true,
        _ => false,
    };
    if is_leaf {
        return leaf_page_cells(&page, header.cell_pointers(), alias, keep, cells);
    }
    if !is_interior {
        return Err(StorageError::InvalidPageType(page_type.code()));
    }
    let ghost kv = condition_views(keep@);
    let ghost start = cells.deep_view();
    let ghost pv = page@;
    let ptrs = header.cell_pointers();
    let len = page.len();
    let mut i: usize = 0;
    while i < ptrs.len()
        invariant
            len == page@.len(),
            pv == page@,
            i <= ptrs@.len(),
            fuel > 0,
            kv == condition_views(keep@),
            walk_spec(db@, page_size, kind, page_num, alias, kv, fuel as nat)
                == children_spec(db@, page_size, kind, pv, ptrs@, 0, right, alias, kv, (fuel - 1) as nat),
            children_spec(db@, page_size, kind, pv, ptrs@, 0, right, alias, kv, (fuel - 1) as nat) == match children_spec(db@, page_size, kind, pv, ptrs@, i as nat, right, alias, kv, (fuel - 1) as nat) {
                Ok(cs) => Ok(cells.deep_view().subrange(start.len() as int, cells.deep_view().len() as int) + cs),
                Err(e) => Err::<Seq<CellView>, StorageErrorView>(e),
            },
            start.len() <= cells.deep_view().len(),
            cells.deep_view().subrange(0, start.len() as int) == start,
            start.is_prefix_of(cells.deep_view()),
            start == old(cells).deep_view(),
        decreases ptrs@.len() - i,
    {
        let ptr = ptrs[i] as usize;
        if ptr > len || 4 > len - ptr {
            return Err(StorageError::Truncated { need: ptr + 4, have: len });
        }
        let child = crate::page::read_be32(page[ptr], page[ptr + 1], page[ptr + 2], page[ptr + 3]);
        let child_num = child_index_exec(child)?;
        let ghost before = cells.deep_view();
        let sub_result = walk_tree(db, page_size, kind, child_num, alias, keep, cells, fuel - 1);
        proof {
            assert(start.is_prefix_of(before));
            lemma_prefix_trans(start, before, cells.deep_view());
        }
        if sub_result.is_err() {
            return sub_result;
        }
        proof {
            let added = cells.deep_view().subrange(before.len() as int, cells.deep_view().len() as int);
            let sub = walk_spec(db@, page_size, kind, child_num, alias, kv, (fuel - 1) as nat);
            assert(sub matches Ok(cs) && cells.deep_view() == before + cs);
            match sub {
                Ok(cs) => { assert(cs =~= added); },
                Err(_) => {},
            }
            assert(sub == Ok::<Seq<CellView>, StorageErrorView>(added));
            assert(child_at(pv, ptrs@[i as int] as nat) == Ok::<usize, StorageErrorView>(child_num));
            assert(cells.deep_view() == before + added);
            assert(cells.deep_view().subrange(0, start.len() as int) =~= before.subrange(0, start.len() as int));
            match children_spec(db@, page_size, kind, pv, ptrs@, (i + 1) as nat, right, alias, kv, (fuel - 1) as nat) {
                Ok(rest) => {
                    assert(before.subrange(start.len() as int, before.len() as int) + (added + rest)
                        =~= cells.deep_view().subrange(start.len() as int, cells.deep_view().len() as int) + rest);
                },
                Err(e) => {},
            }
        }
        i = i + 1;
    }
    match right {
        None => Err(StorageError::InvalidPageType(page_type.code())),
        Some(c) => {
            let child_num = child_index_exec(c)?;
            let ghost before = cells.deep_view();
            let sub_result = walk_tree(db, page_size, kind, child_num, alias, keep, cells, fuel - 1);
            proof {
                assert(start.is_prefix_of(before));
                lemma_prefix_trans(start, before, cells.deep_view());
            }
            if sub_result.is_err() {
                return sub_result;
            }
            proof {
                let added = cells.deep_view().subrange(before.len() as int, cells.deep_view().len() as int);
                let sub = walk_spec(db@, page_size, kind, child_num, alias, kv, (fuel - 1) as nat);
                assert(sub matches Ok(cs) && cells.deep_view() == before + cs);
                match sub {
                    Ok(cs) => { assert(cs =~= added); },
                    Err(_) => {},
                }
                assert(sub == Ok::<Seq<CellView>, StorageErrorView>(added));
                assert(children_spec(db@, page_size, kind, pv, ptrs@, i as nat, right, alias, kv, (fuel - 1) as nat) == sub);
                assert(cells.deep_view() == before + added);
                assert(before.subrange(start.len() as int, before.len() as int) + added
                    =~= cells.deep_view().subrange(start.len() as int, cells.deep_view().len() as int));
                assert(start + cells.deep_view().subrange(start.len() as int, cells.deep_view().len() as int) =~= cells.deep_view());
            }
            Ok(())
        },
    }
}

fn depth_bound(db: &[u8], page_size: u16) -> (r: usize)
    ensures
        r == max_depth(db@.len(), page_size),
{
    let pages = if page_size == 0 { 0 } else { db.len() / (page_size as usize) };
    if pages < usize::MAX { pages + 1 } else { pages }
}

/// Page `page_num` of the database can be read and has a b-tree page
/// header, or the first error reading it.
pub open spec fn root_check(db: Seq<u8>, ps: u16, page_num: usize) -> Result<(), StorageErrorView> {
    match page_bytes(db, ps, page_num) {
        Err(e) => Err(e@),
        Ok(page) => match page_header_spec(page, page_num) {
            Err(e) => Err(e@),
            Ok(_) => Ok(()),
        },
    }
}

/// The kind of b-tree that holds the rows of an object of schema `rt`.
pub open spec fn tree_kind_of(rt: RecordTypeView) -> TreeKind {
    match rt {
        RecordTypeView::Table { .. } => TreeKind::Table,
        RecordTypeView::Index { .. } => TreeKind::Index,
    }
}

/// The name a walk gives the kind of schema it expects.
pub open spec fn expected_kind_name(kind: TreeKind) -> Seq<char> {
    match kind {
        TreeKind::Table => "Table"@,
        TreeKind::Index => "Index"@,
    }
}

/// The name of the kind of object that `rt` describes.
pub open spec fn record_kind_name(rt: RecordTypeView) -> Seq<char> {
    match rt {
        RecordTypeView::Table { .. } => "table"@,
        RecordTypeView::Index { .. } => "index"@,
    }
}

/// The column of a table's records that holds the rowid, if any.
pub open spec fn rowid_alias_of(rt: RecordTypeView) -> Option<usize> {
    match rt {
        RecordTypeView::Table { rowid_alias, .. } => rowid_alias,
        RecordTypeView::Index { .. } => None,
    }
}

/// What a walk of the b-tree of kind `kind` rooted at page `page_num`, for
/// the object whose schema is `rt`, collects: the first error reading the
/// root page; a refusal when `rt` describes the other kind of object; else
/// the cells of the tree that meet `keep`.
pub open spec fn walk_result(db: Seq<u8>, ps: u16, kind: TreeKind, page_num: usize, rt: RecordTypeView, keep: Seq<(usize, ColumnView)>) -> Result<Seq<CellView>, QueryErrorView> {
    match root_check(db, ps, page_num) {
        Err(e) => Err(QueryErrorView::Storage(e)),
        Ok(()) => if tree_kind_of(rt) != kind {
            Err(QueryErrorView::WrongRecordType { expected: expected_kind_name(kind), actual: record_kind_name(rt) })
        } else {
            match walk_spec(db, ps, kind, page_num, rowid_alias_of(rt), keep, max_depth(db.len(), ps)) {
                Ok(cs) => Ok(cs),
                Err(e) => Err(QueryErrorView::Storage(e)),
            }
        },
    }
}

/// `r`, with the cells `before` and `after`, is the outcome `s` describes;
/// whatever the outcome, the cells that were there stay, in front.
pub open spec fn query_walk_outcome(r: Result<(), QueryError>, before: Seq<CellView>, after: Seq<CellView>, s: Result<Seq<CellView>, QueryErrorView>) -> bool {
    before.is_prefix_of(after) && match s {
        Ok(cs) => r is Ok && after == before + cs,
        Err(e) => r matches Err(f) && f@ == e,
    }
}

/// Reads page `page_num` and its b-tree header, then checks that `record_type`
/// is of the kind `kind`, and walks the tree from there.
fn walk_checked(db: &[u8], page_size: u16, kind: TreeKind, page_num: usize, record_type: &RecordType, keep: &Vec<(usize, Column)>, cells: &mut Vec<TableLeafCell>) -> (r: Result<(), QueryError>)
    ensures
        query_walk_outcome(r, old(cells).deep_view(), final(cells).deep_view(), walk_result(db@, page_size, kind, page_num, record_type@, condition_views(keep@))),
        !(root_check(db@, page_size, page_num) is Ok && tree_kind_of(record_type@) == kind)
            ==> final(cells).deep_view() == old(cells).deep_view(),
{
    let page = match read_page(db, page_size, page_num) {
        Ok(page) => page,
        Err(e) => {
            return Err(QueryError::Storage(e));
        },
    };
    match page_header(page.as_slice(), page_num) {
        Ok(_) => {},
        Err(e) => {
            return Err(QueryError::Storage(e));
        },
    }
    let alias = match (kind, record_type) {
        (TreeKind::Table, RecordType::Table { rowid_alias, .. }) => *rowid_alias,
        (TreeKind::Index, RecordType::Index { .. }) => None,
        (TreeKind::Table, RecordType::Index { .. }) => {
            return Err(QueryError::WrongRecordType { expected: "Table", actual: record_type.kind_name() });
        },
        (TreeKind::Index, RecordType::Table { .. }) => {
            return Err(QueryError::WrongRecordType { expected: "Index", actual: record_type.kind_name() });
        },
    };
    let fuel = depth_bound(db, page_size);
    match walk_tree(db, page_size, kind, page_num, alias, keep, cells, fuel) {
        Ok(()) => Ok(()),
        Err(e) => Err(QueryError::Storage(e)),
    }
}

/// Collects, in key order, the cells of the table b-tree rooted at page
/// `page_num` that meet every condition of `keep`, with the rowid filled in
/// as the value of the rowid-alias column of `record_type`. The schema must
/// be a table's: an index's is refused, once the root page has been read,
/// with `cells` left as they were. A tree deeper than the database has
/// pages is refused as cyclic. Cells are only ever appended to `cells`.
pub fn walk(db: &[u8], page_size: u16, page_num: usize, record_type: &RecordType, keep: &Vec<(usize, Column)>, cells: &mut Vec<TableLeafCell>) -> (r: Result<(), QueryError>)
    ensures
        query_walk_outcome(r, old(cells).deep_view(), final(cells).deep_view(),
            walk_result(db@, page_size, TreeKind::Table, page_num, record_type@, condition_views(keep@))),
        !(root_check(db@, page_size, page_num) is Ok && record_type@ is Table)
            ==> final(cells).deep_view() == old(cells).deep_view(),
{
    walk_checked(db, page_size, TreeKind::Table, page_num, record_type, keep, cells)
}

/// Collects, in key order, the cells of the index b-tree rooted at page
/// `page_num` (each read in the table-leaf cell layout). The schema must be
/// an index's: a table's is refused, once the root page has been read, with
/// `cells` left as they were. Cells are only ever appended to `cells`.
pub fn walk_index(db: &[u8], page_size: u16, page_num: usize, record_type: &RecordType, cells: &mut Vec<TableLeafCell>) -> (r: Result<(), QueryError>)
    ensures
        query_walk_outcome(r, old(cells).deep_view(), final(cells).deep_view(),
            walk_result(db@, page_size, TreeKind::Index, page_num, record_type@, Seq::empty())),
        !(root_check(db@, page_size, page_num) is Ok && record_type@ is Index)
            ==> final(cells).deep_view() == old(cells).deep_view(),
{
    let keep: Vec<(usize, Column)> = Vec::new();
    assert(condition_views(keep@) == Seq::<(usize, ColumnView)>::empty());
    walk_checked(db, page_size, TreeKind::Index, page_num, record_type, &keep, cells)
}


/// Whether every cell of `cs` meets every condition of `keep`.
pub open spec fn all_kept(cs: Seq<CellView>, keep: Seq<(usize, ColumnView)>) -> bool {
    forall|k: int| 0 <= k < cs.len() ==> keeps(#[trigger] cs[k].values, keep)
}

proof fn lemma_all_kept_concat(a: Seq<CellView>, b: Seq<CellView>, keep: Seq<(usize, ColumnView)>)
    requires
        all_kept(a, keep),
        all_kept(b, keep),
    ensures
        all_kept(a + b, keep),
{
    assert forall|k: int| 0 <= k < (a + b).len() implies keeps(#[trigger] (a + b)[k].values, keep) by {
        if k < a.len() {
            assert((a + b)[k] == a[k]);
        } else {
            assert((a + b)[k] == b[k - a.len()]);
        }
    }
}

proof fn lemma_leaf_cells_kept(page: Seq<u8>, ptrs: Seq<u16>, i: nat, alias: Option<usize>, keep: Seq<(usize, ColumnView)>)
    ensures
        leaf_cells(page, ptrs, i, alias, keep) matches Ok(cs) ==> all_kept(cs, keep),
    decreases ptrs.len() - i,
{
    if i < ptrs.len() {
        let p = ptrs[i as int];
        if p <= page.len() {
            if let Ok((c, _)) = leaf_cell(from(page, p as nat)) {
                lemma_leaf_cells_kept(page, ptrs, i + 1, alias, keep);
                let c2 = with_rowid(c, alias);
                if let Ok(cs) = leaf_cells(page, ptrs, i + 1, alias, keep) {
                    if keeps(c2.values, keep) {
                        assert(all_kept(seq![c2], keep));
                        lemma_all_kept_concat(seq![c2], cs, keep);
                    }
                }
            }
        }
    }
}

proof fn lemma_walk_spec_kept(db: Seq<u8>, ps: u16, kind: TreeKind, page_num: usize, alias: Option<usize>, keep: Seq<(usize, ColumnView)>, fuel: nat)
    ensures
        walk_spec(db, ps, kind, page_num, alias, keep, fuel) matches Ok(cs) ==> all_kept(cs, keep),
    decreases fuel, 0nat,
{
    if fuel > 0 {
        if let Ok(page) = page_bytes(db, ps, page_num) {
            if let Ok(h) = page_header_spec(page, page_num) {
                if h.page_type == kind.leaf() {
                    lemma_leaf_cells_kept(page, h.cell_pointers, 0, alias, keep);
                } else if h.page_type == kind.interior() {
                    lemma_children_kept(db, ps, kind, page, h.cell_pointers, 0, h.right_most_child, alias, keep, (fuel - 1) as nat);
                }
            }
        }
    }
}

proof fn lemma_children_kept(db: Seq<u8>, ps: u16, kind: TreeKind, page: Seq<u8>, ptrs: Seq<u16>, i: nat, right: Option<u32>, alias: Option<usize>, keep: Seq<(usize, ColumnView)>, fuel: nat)
    ensures
        children_spec(db, ps, kind, page, ptrs, i, right, alias, keep, fuel) matches Ok(cs) ==> all_kept(cs, keep),
    decreases fuel, (if i <= ptrs.len() { ptrs.len() + 1 - i } else { 1int }),
{
    if i >= ptrs.len() {
        if let Some(c) = right {
            if let Ok(child) = child_index(c) {
                lemma_walk_spec_kept(db, ps, kind, child, alias, keep, fuel);
            }
        }
    } else {
        if let Ok(child) = child_at(page, ptrs[i as int] as nat) {
            lemma_walk_spec_kept(db, ps, kind, child, alias, keep, fuel);
            lemma_children_kept(db, ps, kind, page, ptrs, i + 1, right, alias, keep, fuel);
            if let Ok(cs) = walk_spec(db, ps, kind, child, alias, keep, fuel) {
                if let Ok(rest) = children_spec(db, ps, kind, page, ptrs, i + 1, right, alias, keep, fuel) {
                    lemma_all_kept_concat(cs, rest, keep);
                }
            }
        }
    }
}

/// Every row that a walk collects meets every condition it was given:
/// each condition's column exists in the row and holds the expected value.
pub proof fn lemma_walk_rows_meet_conditions(db: Seq<u8>, ps: u16, page_num: usize, alias: Option<usize>, keep: Seq<(usize, ColumnView)>)
    ensures
        walk_spec(db, ps, TreeKind::Table, page_num, alias, keep, max_depth(db.len(), ps)) matches Ok(cs)
            ==> all_kept(cs, keep),
{
    lemma_walk_spec_kept(db, ps, TreeKind::Table, page_num, alias, keep, max_depth(db.len(), ps));
}

} // verus!
