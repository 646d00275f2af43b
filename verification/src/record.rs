//! The record format: serial types, column values, record headers.

use vstd::prelude::*;
use vstd::utf8::{valid_utf8, decode_utf8};
use crate::common::{be256, int_be, int_be_spec};
use crate::error::StorageError;
use crate::text::utf8_string;

verus! {

/// Record-format serial type (see the "Record Format" section of the SQLite
/// file format).
#[derive(Debug, Clone, Copy, PartialEq, Eq, Structural)]
pub enum SerialType {
    Null,
    I8,
    I16,
    I24,
    I32,
    I48,
    I64,
    F64,
    /// Codes 8 and 9: literal 0 / 1, no bytes in the body.
    Zero,
    One,
    /// Code N >= 12, even. Payload is (N-12)/2 bytes.
    Blob(usize),
    /// Code N >= 13, odd. Payload is (N-13)/2 bytes.
    Text(usize),
}

impl SerialType {
    /// Byte width of a column of this type in the record body.
    pub open spec fn spec_size(self) -> nat {
        match self {
            SerialType::Null | SerialType::Zero | SerialType::One => 0,
            SerialType::I8 => 1,
            SerialType::I16 => 2,
            SerialType::I24 => 3,
            SerialType::I32 => 4,
            SerialType::I48 => 6,
            SerialType::I64 | SerialType::F64 => 8,
            SerialType::Blob(n) | SerialType::Text(n) => n as nat,
        }
    }

    /// Byte width of this column in the record body.
    pub fn size(self) -> (r: usize)
        ensures
            r == self.spec_size(),
    {
        match self {
            SerialType::Null | SerialType::Zero | SerialType::One => 0,
            SerialType::I8 => 1,
            SerialType::I16 => 2,
            SerialType::I24 => 3,
            SerialType::I32 => 4,
            SerialType::I48 => 6,
            SerialType::I64 | SerialType::F64 => 8,
            SerialType::Blob(n) | SerialType::Text(n) => n,
        }
    }

    /// The serial type that `code` stands for; codes 10 and 11 are reserved.
    pub open spec fn from_code(code: u64) -> Result<SerialType, StorageError> {
        if code == 0 { Ok(SerialType::Null) }
        else if code == 1 { Ok(SerialType::I8) }
        else if code == 2 { Ok(SerialType::I16) }
        else if code == 3 { Ok(SerialType::I24) }
        else if code == 4 { Ok(SerialType::I32) }
        else if code == 5 { Ok(SerialType::I48) }
        else if code == 6 { Ok(SerialType::I64) }
        else if code == 7 { Ok(SerialType::F64) }
        else if code == 8 { Ok(SerialType::Zero) }
        else if code == 9 { Ok(SerialType::One) }
        else if code == 10 || code == 11 { Err(StorageError::ReservedSerialType(code)) }
        else if code % 2 == 0 { Ok(SerialType::Blob(((code - 12) / 2) as usize)) }
        else { Ok(SerialType::Text(((code - 13) / 2) as usize)) }
    }

    /// Decodes a serial type code from a record header.
    pub fn try_from(code: u64) -> (r: Result<SerialType, StorageError>)
        ensures
            r == Self::from_code(code),
    {
        match code {
            0 => Ok(SerialType::Null),
            1 => Ok(SerialType::I8),
            2 => Ok(SerialType::I16),
            3 => Ok(SerialType::I24),
            4 => Ok(SerialType::I32),
            5 => Ok(SerialType::I48),
            6 => Ok(SerialType::I64),
            7 => Ok(SerialType::F64),
            8 => Ok(SerialType::Zero),
            9 => Ok(SerialType::One),
            10 | 11 => Err(StorageError::ReservedSerialType(code)),
            n => {
                if n % 2 == 0 {
                    Ok(SerialType::Blob(((n - 12) / 2) as usize))
                } else {
                    Ok(SerialType::Text(((n - 13) / 2) as usize))
                }
            },
        }
    }
}

/// One decoded column. All integer widths collapse to i64, matching
/// sqlite's own model; a float is kept as the bits of its IEEE-754 double.
#[derive(Debug, Clone, PartialEq)]
pub enum Column {
    Null,
    Int(i64),
    Float(u64),
    Blob(Vec<u8>),
    Text(String),
}

/// The value of a column.
pub enum ColumnView {
    Null,
    Int(i64),
    Float(u64),
    Blob(Seq<u8>),
    Text(Seq<char>),
}

impl View for Column {
    type V = ColumnView;

    open spec fn view(&self) -> ColumnView {
        match self {
            Column::Null => ColumnView::Null,
            Column::Int(i) => ColumnView::Int(*i),
            Column::Float(b) => ColumnView::Float(*b),
            Column::Blob(b) => ColumnView::Blob(b@),
            Column::Text(s) => ColumnView::Text(s@),
        }
    }
}

impl DeepView for Column {
    type V = ColumnView;

    open spec fn deep_view(&self) -> ColumnView {
        self@
    }
}

/// The value that the `t.spec_size()` bytes `bytes` encode as a column of
/// serial type `t`; `None` for text that is not UTF-8.
pub open spec fn column_value(bytes: Seq<u8>, t: SerialType) -> Option<ColumnView> {
    match t {
        SerialType::Null => Some(ColumnView::Null),
        SerialType::Zero => Some(ColumnView::Int(0)),
        SerialType::One => Some(ColumnView::Int(1)),
        SerialType::F64 => Some(ColumnView::Float(be256(bytes) as u64)),
        SerialType::Blob(_) => Some(ColumnView::Blob(bytes)),
        SerialType::Text(_) => if valid_utf8(bytes) {
            Some(ColumnView::Text(decode_utf8(bytes)))
        } else {
            None
        },
        _ => Some(ColumnView::Int(int_be_spec(bytes) as i64)),
    }
}

/// Decoding one column of type `t` at the start of `buf`: its value and the
/// bytes it takes, or the error.
pub open spec fn parse_column(buf: Seq<u8>, t: SerialType) -> Result<(ColumnView, nat), StorageError> {
    let n = t.spec_size();
    if buf.len() < n {
        Err(StorageError::Truncated { need: n as usize, have: buf.len() as usize })
    } else {
        match column_value(buf.subrange(0, n as int), t) {
            Some(v) => Ok((v, n)),
            None => Err(StorageError::InvalidUtf8),
        }
    }
}

/// `r` is the outcome `s` describes.
pub open spec fn column_outcome(
    r: Result<(Column, usize), StorageError>,
    s: Result<(ColumnView, nat), StorageError>,
) -> bool {
    match (r, s) {
        (Ok((c, n)), Ok((v, m))) => c@ == v && n == m,
        (Err(e), Err(f)) => e == f,
        _ => false,
    }
}

impl Column {
    /// Decodes one column at the start of `buf`. Returns (column, bytes consumed).
    pub fn parse(buf: &[u8], s_type: SerialType) -> (r: Result<(Column, usize), StorageError>)
        ensures
            column_outcome(r, parse_column(buf@, s_type)),
    {
        let n = s_type.size();
        if buf.len() < n {
            return Err(StorageError::Truncated { need: n, have: buf.len() });
        }
        let bytes = &buf[0..n];
        let col = match s_type {
            SerialType::Null => Column::Null,
            SerialType::Zero => Column::Int(0),
            SerialType::One => Column::Int(1),
            SerialType::I8
            | SerialType::I16
            | SerialType::I24
            | SerialType::I32
            | SerialType::I48
            | SerialType::I64 => Column::Int(int_be(bytes)?),
            SerialType::F64 => Column::Float(be_u64(bytes)),
            SerialType::Blob(_) => Column::Blob(vstd::slice::slice_to_vec(bytes)),
            SerialType::Text(_) => match utf8_string(vstd::slice::slice_to_vec(bytes)) {
                Some(s) => Column::Text(s),
                None => return Err(StorageError::InvalidUtf8),
            },
        };
        Ok((col, n))
    }

    /// A copy of this column with the same value.
    pub fn duplicate(&self) -> (r: Column)
        ensures
            r@ == self@,
    {
        match self {
            Column::Null => Column::Null,
            Column::Int(i) => Column::Int(*i),
            Column::Float(b) => Column::Float(*b),
            Column::Blob(b) => Column::Blob(b.clone()),
            Column::Text(s) => Column::Text(s.clone()),
        }
    }
}

/// The up to 8 bytes of `bytes`, big-endian, as an unsigned number.
fn be_u64(bytes: &[u8]) -> (r: u64)
    requires
        bytes@.len() <= 8,
    ensures
        r == be256(bytes@),
{
    let n = bytes.len();
    let mut raw: u64 = 0;
    let mut i: usize = 0;
    while i < n
        invariant
            i <= n == bytes@.len() <= 8,
            raw == be256(bytes@.subrange(0, i as int)),
        decreases n - i,
    {
        proof {
            let pre = bytes@.subrange(0, i as int);
            crate::common::lemma_be256_bound(pre);
            crate::common::lemma_pow256_mono(i as nat, 7);
            reveal_with_fuel(crate::common::pow256, 8);
            assert(bytes@.subrange(0, i + 1).drop_last() == pre);
        }
        raw = raw * 256 + bytes[i] as u64;
        i = i + 1;
    }
    proof {
        assert(bytes@.subrange(0, n as int) == bytes@);
    }
    raw
}

/// A serial type code of 12 or more is a blob (even codes) or a text (odd
/// codes) of `(code - 12) / 2` bytes; codes 10 and 11 are reserved.
pub proof fn lemma_serial_type_payload(code: u64)
    requires
        (code - 12) / 2 <= usize::MAX,
    ensures
        code >= 12 ==> (SerialType::from_code(code) matches Ok(t) && t.spec_size() == (code - 12) / 2
            && (t is Blob <==> code % 2 == 0) && (t is Text <==> code % 2 == 1)),
        (code == 10 || code == 11) <==> SerialType::from_code(code) is Err,
{
}

/// Decoding a column takes exactly the bytes its serial type says, and
/// fails for want of bytes exactly when the buffer is shorter than that.
pub proof fn lemma_parse_column_size(buf: Seq<u8>, t: SerialType)
    ensures
        parse_column(buf, t) matches Ok((_, n)) ==> n == t.spec_size() && n <= buf.len(),
        (parse_column(buf, t) matches Err(StorageError::Truncated { .. })) <==> buf.len() < t.spec_size(),
{
}

/// One row's header: the serial types of its columns, in column order.
#[derive(Debug)]
pub struct RecordHdr {
    serial_types: Vec<SerialType>,
}

impl RecordHdr {
    pub fn new(serial_types: Vec<SerialType>) -> (r: RecordHdr)
        ensures
            r.spec_serial_types() == serial_types@,
    {
        RecordHdr { serial_types }
    }

    pub closed spec fn spec_serial_types(&self) -> Seq<SerialType> {
        self.serial_types@
    }

    pub fn serial_types(&self) -> (r: &[SerialType])
        ensures
            r@ == self.spec_serial_types(),
    {
        self.serial_types.as_slice()
    }
}

/// One row: the values of its columns, in column order.
#[derive(Debug)]
pub struct Record {
    pub values: Vec<Column>,
}

impl View for Record {
    type V = Seq<ColumnView>;

    open spec fn view(&self) -> Seq<ColumnView> {
        self.values.deep_view()
    }
}

} // verus!
