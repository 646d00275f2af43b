//! Pages: the database header's page size, b-tree page headers, and the
//! page at a given page number.

use vstd::prelude::*;
use crate::error::StorageError;

verus! {

/// Size of the file header at the start of page 1.
pub const DB_HEADER_SIZE: usize = 100;

/// The kind of a b-tree page, as its header's first byte names it.
#[derive(Debug, Clone, Copy, PartialEq, Eq, Structural)]
pub enum PageType {
    InteriorIndex,
    InteriorTable,
    LeafIndex,
    LeafTable,
}

impl PageType {
    /// The page type that the header byte `b` names.
    pub open spec fn from_byte(b: u8) -> Option<PageType> {
        if b == 0x02 { Some(PageType::InteriorIndex) }
        else if b == 0x05 { Some(PageType::InteriorTable) }
        else if b == 0x0a { Some(PageType::LeafIndex) }
        else if b == 0x0d { Some(PageType::LeafTable) }
        else { None }
    }

    /// The header byte that names this page type.
    pub open spec fn spec_code(self) -> u8 {
        match self {
            PageType::InteriorIndex => 0x02,
            PageType::InteriorTable => 0x05,
            PageType::LeafIndex => 0x0a,
            PageType::LeafTable => 0x0d,
        }
    }

    pub open spec fn spec_is_leaf(self) -> bool {
        self is LeafIndex || self is LeafTable
    }

    /// Decodes a page header's type byte.
    pub fn try_from(value: u8) -> (r: Result<PageType, StorageError>)
        ensures
            match PageType::from_byte(value) {
                Some(t) => r == Ok::<PageType, StorageError>(t),
                None => r == Err::<PageType, StorageError>(StorageError::InvalidPageType(value)),
            },
    {
        match value {
            0x02 => Ok(PageType::InteriorIndex),
            0x05 => Ok(PageType::InteriorTable),
            0x0a => Ok(PageType::LeafIndex),
            0x0d => Ok(PageType::LeafTable),
            b => Err(StorageError::InvalidPageType(b)),
        }
    }

    /// The header byte that names this page type.
    pub fn code(self) -> (r: u8)
        ensures
            r == self.spec_code(),
            PageType::from_byte(r) == Some(self),
    {
        match self {
            PageType::InteriorIndex => 0x02,
            PageType::InteriorTable => 0x05,
            PageType::LeafIndex => 0x0a,
            PageType::LeafTable => 0x0d,
        }
    }

    /// Whether pages of this type are leaves (they have no right-most child).
    pub fn is_leaf(self) -> (r: bool)
        ensures
            r == self.spec_is_leaf(),
    {
        match self {
            PageType::LeafIndex | PageType::LeafTable => true,
            PageType::InteriorIndex | PageType::InteriorTable => false,
        }
    }
}

/// A page type's header byte names that page type, and a byte that names a
/// page type is that type's header byte.
pub proof fn lemma_page_type_code(t: PageType, b: u8)
    ensures
        PageType::from_byte(t.spec_code()) == Some(t),
        PageType::from_byte(b) matches Some(u) ==> u.spec_code() == b,
{
}

/// A b-tree page header: the page type, the number of cells, the cell
/// pointer array, and (for interior pages only) the right-most child.
#[derive(Debug)]
pub struct PageHeader {
    page_type: PageType,
    cell_count: u16,
    cell_pointers: Vec<u16>,
    right_most_child: Option<u32>,
}

/// What a page header says.
pub struct PageHeaderView {
    pub page_type: PageType,
    pub cell_count: u16,
    pub cell_pointers: Seq<u16>,
    pub right_most_child: Option<u32>,
}

impl View for PageHeader {
    type V = PageHeaderView;

    closed spec fn view(&self) -> PageHeaderView {
        PageHeaderView {
            page_type: self.page_type,
            cell_count: self.cell_count,
            cell_pointers: self.cell_pointers@,
            right_most_child: self.right_most_child,
        }
    }
}

/// Leaf pages have no right-most child; interior pages have one.
pub open spec fn header_well_formed(h: PageHeaderView) -> bool {
    h.page_type.spec_is_leaf() <==> h.right_most_child is None
}

impl PageHeader {
    #[verifier::type_invariant]
    closed spec fn inv(self) -> bool {
        header_well_formed(self@)
    }

    /// Builds a page header; a leaf with a right-most child, or an interior
    /// page without one, is refused as an invalid page of its type.
    pub fn new(
        page_type: PageType,
        cell_count: u16,
        cell_pointers: Vec<u16>,
        right_most_child: Option<u32>,
    ) -> (r: Result<PageHeader, StorageError>)
        ensures
            (page_type.spec_is_leaf() <==> right_most_child is None) ==> (r matches Ok(h) && h@ == (PageHeaderView {
                page_type,
                cell_count,
                cell_pointers: cell_pointers@,
                right_most_child,
            })),
            !(page_type.spec_is_leaf() <==> right_most_child is None) ==> r == Err::<PageHeader, StorageError>(
                StorageError::InvalidPageType(page_type.spec_code()),
            ),
    {
        if page_type.is_leaf() {
            if right_most_child.is_some() {
                return Err(StorageError::InvalidPageType(page_type.code()));
            }
        } else {
            if right_most_child.is_none() {
                return Err(StorageError::InvalidPageType(page_type.code()));
            }
        }
        Ok(PageHeader { page_type, cell_count, cell_pointers, right_most_child })
    }

    pub fn cell_count(&self) -> (r: u16)
        ensures
            r == self@.cell_count,
    {
        self.cell_count
    }

    pub fn cell_pointers(&self) -> (r: &Vec<u16>)
        ensures
            r@ == self@.cell_pointers,
    {
        &self.cell_pointers
    }

    pub fn page_type(&self) -> (r: &PageType)
        ensures
            *r == self@.page_type,
    {
        &self.page_type
    }

    /// The right-most child; there is one exactly when the page is an
    /// interior page.
    pub fn right_most_child(&self) -> (r: Option<u32>)
        ensures
            r == self@.right_most_child,
            header_well_formed(self@),
    {
        proof { use_type_invariant(self); }
        self.right_most_child
    }
}

/// Big-endian 16-bit value of `hi`, `lo`.
pub open spec fn be16(hi: u8, lo: u8) -> u16 {
    (hi as int * 256 + lo as int) as u16
}

/// Big-endian 32-bit value of four bytes.
pub open spec fn be32(a: u8, b: u8, c: u8, d: u8) -> u32 {
    (((a as int * 256 + b as int) * 256 + c as int) * 256 + d as int) as u32
}

fn read_be16(hi: u8, lo: u8) -> (r: u16)
    ensures
        r == be16(hi, lo),
{
    hi as u16 * 256 + lo as u16
}

pub fn read_be32(a: u8, b: u8, c: u8, d: u8) -> (r: u32)
    ensures
        r == be32(a, b, c, d),
{
    ((a as u32 * 256 + b as u32) * 256 + c as u32) * 256 + d as u32
}

/// Where the b-tree header of page `page_num` starts: page 1 (number 0)
/// carries the file header first.
pub open spec fn header_start(page_num: usize) -> nat {
    if page_num == 0 { DB_HEADER_SIZE as nat } else { 0 }
}

/// Length of a b-tree page header: interior headers hold 4 more bytes, the
/// right-most child.
pub open spec fn header_len(t: PageType) -> nat {
    if t.spec_is_leaf() { 8 } else { 12 }
}

/// The `count` cell pointers that start at `off` in `page`.
pub open spec fn cell_pointer_array(page: Seq<u8>, off: nat, count: nat) -> Seq<u16> {
    Seq::new(count, |i: int| be16(page[off + 2 * i], page[off + 2 * i + 1]))
}

/// The header of b-tree page `page_num` whose bytes are `page`, or the
/// first error reading it.
pub open spec fn page_header_spec(page: Seq<u8>, page_num: usize) -> Result<PageHeaderView, StorageError> {
    let h = header_start(page_num) as int;
    if page.len() < h + 1 {
        Err(StorageError::Truncated { need: (h + 1) as usize, have: page.len() as usize })
    } else {
        match PageType::from_byte(page[h]) {
            None => Err(StorageError::InvalidPageType(page[h])),
            Some(t) => {
                if page.len() < h + 5 {
                    Err(StorageError::Truncated { need: (h + 5) as usize, have: page.len() as usize })
                } else if !t.spec_is_leaf() && page.len() < h + 12 {
                    Err(StorageError::Truncated { need: (h + 12) as usize, have: page.len() as usize })
                } else {
                    let count = be16(page[h + 3], page[h + 4]);
                    let ptrs = h + header_len(t);
                    if count > 0 && page.len() < ptrs + 2 * count {
                        Err(StorageError::Truncated { need: (ptrs + 2 * count) as usize, have: page.len() as usize })
                    } else {
                        Ok(PageHeaderView {
                            page_type: t,
                            cell_count: count,
                            cell_pointers: cell_pointer_array(page, ptrs as nat, count as nat),
                            right_most_child: if t.spec_is_leaf() {
                                None
                            } else {
                                Some(be32(page[h + 8], page[h + 9], page[h + 10], page[h + 11]))
                            },
                        })
                    }
                }
            },
        }
    }
}

/// A page header that reads has one cell pointer per cell, and a right-most
/// child exactly when the page is an interior page.
pub proof fn lemma_page_header_shape(page: Seq<u8>, page_num: usize)
    ensures
        page_header_spec(page, page_num) matches Ok(h) ==> (h.cell_pointers.len() == h.cell_count
            && header_well_formed(h)),
{
}

/// Reads the b-tree header of page `page_num`, whose bytes are `page`.
pub fn page_header(page: &[u8], page_num: usize) -> (r: Result<PageHeader, StorageError>)
    ensures
        match page_header_spec(page@, page_num) {
            Ok(v) => r matches Ok(h) && h@ == v,
            Err(e) => r == Err::<PageHeader, StorageError>(e),
        },
{
    let len = page.len();
    let hdr_start: usize = if page_num == 0 { DB_HEADER_SIZE } else { 0 };
    if len < hdr_start + 1 {
        return Err(StorageError::Truncated { need: hdr_start + 1, have: len });
    }
    let page_type = PageType::try_from(page[hdr_start])?;
    if len < hdr_start + 5 {
        return Err(StorageError::Truncated { need: hdr_start + 5, have: len });
    }
    if !page_type.is_leaf() && len < hdr_start + 12 {
        return Err(StorageError::Truncated { need: hdr_start + 12, have: len });
    }
    let cell_count = read_be16(page[hdr_start + 3], page[hdr_start + 4]);
    let (hlen, right_most_child): (usize, Option<u32>) = if page_type.is_leaf() {
        (8, None)
    } else {
        (12, Some(read_be32(page[hdr_start + 8], page[hdr_start + 9], page[hdr_start + 10], page[hdr_start + 11])))
    };
    let ptrs = hdr_start + hlen;
    let count = cell_count as usize;
    if count > 0 && len < ptrs + 2 * count {
        return Err(StorageError::Truncated { need: ptrs + 2 * count, have: len });
    }
    let mut cell_ptrs: Vec<u16> = Vec::new();
    let mut i: usize = 0;
    while i < count
        invariant
            i <= count == cell_count as nat,
            count > 0 ==> len >= ptrs + 2 * count,
            len == page@.len(),
            cell_ptrs@ == cell_pointer_array(page@, ptrs as nat, count as nat).take(i as int),
        decreases count - i,
    {
        let off = ptrs + 2 * i;
        let cell_ptr = read_be16(page[off], page[off + 1]);
        cell_ptrs.push(cell_ptr);
        i = i + 1;
        proof {
            assert(cell_ptrs@ =~= cell_pointer_array(page@, ptrs as nat, count as nat).take(i as int));
        }
    }
    proof {
        assert(cell_ptrs@ =~= cell_pointer_array(page@, ptrs as nat, count as nat));
    }
    PageHeader::new(page_type, cell_count, cell_ptrs, right_most_child)
}

/// The bytes of page `page_num` (numbered from 0) of a database whose
/// pages are `page_size` bytes long, or a read error when the page is not
/// all inside `db`.
pub open spec fn page_bytes(db: Seq<u8>, page_size: u16, page_num: usize) -> Result<Seq<u8>, StorageError> {
    let offset = page_size as int * page_num as int;
    if offset + page_size as int <= db.len() {
        Ok(db.subrange(offset, offset + page_size as int))
    } else {
        Err(StorageError::Read { offset: #[verifier::truncate] (offset as u64), len: page_size as usize })
    }
}

/// Reads page `page_num` (numbered from 0) out of the database bytes `db`.
pub fn read_page(db: &[u8], page_size: u16, page_num: usize) -> (r: Result<Vec<u8>, StorageError>)
    ensures
        match page_bytes(db@, page_size, page_num) {
            Ok(bytes) => r matches Ok(v) && v@ == bytes,
            Err(e) => r == Err::<Vec<u8>, StorageError>(e),
        },
{
    assert(page_size as int * page_num as int <= 0xffff * 0xffff_ffff_ffff_ffff) by (nonlinear_arith)
        requires
            page_size <= 0xffff,
            page_num <= 0xffff_ffff_ffff_ffff,
    ;
    let offset: u128 = page_size as u128 * page_num as u128;
    let end: u128 = offset + page_size as u128;
    if end > db.len() as u128 {
        return Err(StorageError::Read { offset: #[verifier::truncate] (offset as u64), len: page_size as usize });
    }
    let start = offset as usize;
    let stop = end as usize;
    Ok(vstd::slice::slice_to_vec(&db[start..stop]))
}

/// The page size that the database header at the start of `db` records, or
/// a read error when `db` is shorter than the header.
pub open spec fn page_size_spec(db: Seq<u8>) -> Result<u16, StorageError> {
    if db.len() < DB_HEADER_SIZE {
        Err(StorageError::Read { offset: 0, len: DB_HEADER_SIZE })
    } else {
        Ok(be16(db[16], db[17]))
    }
}

/// Reads the page size out of the database header at the start of `db`.
pub fn page_size(db: &[u8]) -> (r: Result<u16, StorageError>)
    ensures
        r == page_size_spec(db@),
{
    if db.len() < DB_HEADER_SIZE {
        return Err(StorageError::Read { offset: 0, len: DB_HEADER_SIZE });
    }
    Ok(read_be16(db[16], db[17]))
}

/// The database header fields this reader uses.
#[derive(Debug)]
pub struct DbHeader {
    page_size: u16,
}

impl DbHeader {
    pub fn new(page_size: u16) -> (r: DbHeader)
        ensures
            r.spec_page_size() == page_size,
    {
        DbHeader { page_size }
    }

    pub closed spec fn spec_page_size(&self) -> u16 {
        self.page_size
    }

    pub fn page_size(&self) -> (r: u16)
        ensures
            r == self.spec_page_size(),
    {
        self.page_size
    }
}

/// Reads the database header at the start of `db`.
pub fn db_header(db: &[u8]) -> (r: Result<DbHeader, StorageError>)
    ensures
        match page_size_spec(db@) {
            Ok(ps) => r matches Ok(h) && h.spec_page_size() == ps,
            Err(e) => r matches Err(f) && f == e,
        },
{
    let ps = page_size(db)?;
    Ok(DbHeader::new(ps))
}

/// The bytes of the first page of the database `db`.
pub fn parse_first_page(db: &[u8]) -> (r: Result<Vec<u8>, StorageError>)
    ensures
        match page_size_spec(db@) {
            Err(e) => r == Err::<Vec<u8>, StorageError>(e),
            Ok(ps) => match page_bytes(db@, ps, 0) {
                Ok(bytes) => r matches Ok(v) && v@ == bytes,
                Err(e) => r == Err::<Vec<u8>, StorageError>(e),
            },
        },
{
    let page_size = page_size(db)?;
    read_page(db, page_size, 0)
}

} // verus!
