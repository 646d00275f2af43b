//! The `sqlite_schema` table: its rows, and the `CREATE` statements they hold.

use vstd::prelude::*;
use crate::btree::{parse_leaf_cell, leaf_cell};
use crate::common::to_usize;
use crate::error::{StorageError, StorageErrorView};
use crate::page::{page_header, page_header_spec};
use crate::record::{Column, ColumnView};
use crate::text::{
    chars_of, string_from_chars, split, split_chars, char_views, trim, trim_chars, first_word,
    first_word_chars, contains, contains_chars, starts_with, starts_with_chars, index_of,
    last_index_of, find_char, rfind_char, lemma_index_of_from, lemma_last_index_below,
};
use crate::tokenize::{Ident, lower, lower_chars, chars_eq};

verus! {

/// What a schema row describes: a table, with its column names in order
/// and the column that is an alias of the rowid, or an index on a column.
#[derive(Debug)]
pub enum RecordType {
    Table {
        /// The column names, in column order; a column's index in a record
        /// is its position here.
        parsed_columns: Vec<Ident>,
        /// The `integer primary key` column: stored as NULL in the record,
        /// its value is the rowid.
        rowid_alias: Option<usize>,
    },
    Index { col_name: Ident },
}

impl RecordType {
    /// What kind of object the row describes: `table` or `index`.
    pub fn kind_name(&self) -> (r: &'static str)
        ensures
            r@ == (match self@ {
                RecordTypeView::Table { .. } => "table"@,
                RecordTypeView::Index { .. } => "index"@,
            }),
    {
        match self {
            RecordType::Table { .. } => "table",
            RecordType::Index { .. } => "index",
        }
    }
}

pub enum RecordTypeView {
    Table { columns: Seq<Seq<char>>, rowid_alias: Option<usize> },
    Index { col_name: Seq<char> },
}

/// The characters of each identifier of `v`.
pub open spec fn ident_views(v: Seq<Ident>) -> Seq<Seq<char>> {
    v.map_values(|x: Ident| x@)
}

impl View for RecordType {
    type V = RecordTypeView;

    open spec fn view(&self) -> RecordTypeView {
        match self {
            RecordType::Table { parsed_columns, rowid_alias } => RecordTypeView::Table {
                columns: ident_views(parsed_columns@),
                rowid_alias: *rowid_alias,
            },
            RecordType::Index { col_name } => RecordTypeView::Index { col_name: col_name@ },
        }
    }
}

/// The last position before `n` where `cols` holds `name`.
pub open spec fn position_below(cols: Seq<Seq<char>>, name: Seq<char>, n: nat) -> Option<nat>
    decreases n,
{
    if n == 0 {
        None
    } else if cols[n - 1] == name {
        Some((n - 1) as nat)
    } else {
        position_below(cols, name, (n - 1) as nat)
    }
}

/// The index of the column `name` among the column names `cols`: where
/// a name occurs twice, the later column wins.
pub open spec fn column_position(cols: Seq<Seq<char>>, name: Seq<char>) -> Option<nat> {
    position_below(cols, name, cols.len())
}

pub proof fn lemma_position_below(cols: Seq<Seq<char>>, name: Seq<char>, n: nat)
    requires
        n <= cols.len(),
    ensures
        position_below(cols, name, n) matches Some(i) ==> i < n && cols[i as int] == name,
        position_below(cols, name, n) is None ==> forall|i: int| 0 <= i < n ==> cols[i] != name,
    decreases n,
{
    if n > 0 && cols[n - 1] != name {
        lemma_position_below(cols, name, (n - 1) as nat);
    }
}

/// The index of the column `name` among `cols`; the later of two columns
/// of the same name wins.
pub fn column_index(cols: &Vec<Ident>, name: &Ident) -> (r: Option<usize>)
    ensures
        r == (match column_position(ident_views(cols@), name@) {
            Some(i) => Some(i as usize),
            None => None::<usize>,
        }),
{
    let mut n = cols.len();
    while n > 0
        invariant
            n <= cols@.len(),
            column_position(ident_views(cols@), name@) == position_below(ident_views(cols@), name@, n as nat),
        decreases n,
    {
        if cols[n - 1].same(name) {
            return Some(n - 1);
        }
        n = n - 1;
    }
    None
}

/// One row of `sqlite_schema`: what it describes, the table it belongs
/// to, and the number of the root page of its b-tree.
#[derive(Debug)]
pub struct SqliteSchema {
    ty: RecordType,
    tbl_name: Ident,
    rootpage: i64,
}

pub struct SchemaView {
    pub ty: RecordTypeView,
    pub tbl_name: Seq<char>,
    pub rootpage: i64,
}

impl View for SqliteSchema {
    type V = SchemaView;

    closed spec fn view(&self) -> SchemaView {
        SchemaView { ty: self.ty@, tbl_name: self.tbl_name@, rootpage: self.rootpage }
    }
}

impl DeepView for SqliteSchema {
    type V = SchemaView;

    open spec fn deep_view(&self) -> SchemaView {
        self@
    }
}

/// The 0-based index of the root page numbered `rootpage` (from 1).
pub open spec fn root_index(rootpage: i64) -> Result<usize, StorageErrorView> {
    let v: int = if rootpage == i64::MIN { rootpage as int } else { rootpage - 1 };
    if 0 <= v <= usize::MAX {
        Ok(v as usize)
    } else {
        Err(StorageErrorView::OutOfRange { what: "root page number"@, value: v as i64 })
    }
}

impl SqliteSchema {
    pub fn new(ty: RecordType, tbl_name: Ident, rootpage: i64) -> (r: SqliteSchema)
        ensures
            r@ == (SchemaView { ty: ty@, tbl_name: tbl_name@, rootpage }),
    {
        SqliteSchema { ty, tbl_name, rootpage }
    }

    pub fn ty(&self) -> (r: &RecordType)
        ensures
            r@ == self@.ty,
    {
        &self.ty
    }

    pub fn tbl_name(&self) -> (r: &Ident)
        ensures
            r@ == self@.tbl_name,
    {
        &self.tbl_name
    }

    /// The 0-based index of the root page.
    pub fn rootpage_index(&self) -> (r: Result<usize, StorageError>)
        ensures
            match root_index(self@.rootpage) {
                Ok(i) => r == Ok::<usize, StorageError>(i),
                Err(e) => r matches Err(f) && f@ == e,
            },
    {
        let v = if self.rootpage == i64::MIN { self.rootpage } else { self.rootpage - 1 };
        to_usize(v, "root page number")
    }
}

/// The text of a schema column, or the error naming the column `index`.
pub fn text(index: usize, col: Column) -> (r: Result<String, StorageError>)
    ensures
        match col@ {
            ColumnView::Text(s) => r matches Ok(t) && t@ == s,
            v => r matches Err(e) && e@ == (StorageErrorView::SchemaColumnType { index, expected: "Text"@, found: v }),
        },
{
    match col {
        Column::Text(s) => Ok(s),
        got => Err(StorageError::SchemaColumnType { index, expected: "Text", found: got }),
    }
}

/// The integer of a schema column, or the error naming the column `index`.
pub fn integer(index: usize, col: Column) -> (r: Result<i64, StorageError>)
    ensures
        match col@ {
            ColumnView::Int(i) => r == Ok::<i64, StorageError>(i),
            v => r matches Err(e) && e@ == (StorageErrorView::SchemaColumnType { index, expected: "Int"@, found: v }),
        },
{
    match col {
        Column::Int(i) => Ok(i),
        got => Err(StorageError::SchemaColumnType { index, expected: "Int", found: got }),
    }
}

/// The error for schema SQL `sql` that this reader does not understand.
pub open spec fn unsupported(reason: Seq<char>, sql: Seq<char>) -> StorageErrorView {
    StorageErrorView::UnsupportedSchemaSql { reason, sql }
}

/// The text between the first `(` and the last `)` of a `CREATE` statement.
pub open spec fn between_parens_spec(sql: Seq<char>) -> Result<Seq<char>, StorageErrorView> {
    match index_of(sql, '(') {
        None => Err(unsupported("missing `(`"@, sql)),
        Some(open) => match last_index_of(sql, ')') {
            None => Err(unsupported("missing `)`"@, sql)),
            Some(close) => if close < open {
                Err(unsupported("`)` before `(`"@, sql))
            } else {
                Ok(sql.subrange(open + 1int, close as int))
            },
        },
    }
}

/// The text between the first `(` and the last `)` of the `CREATE`
/// statement `sql`.
pub fn between_parens(sql: &[char]) -> (r: Result<Vec<char>, StorageError>)
    ensures
        match between_parens_spec(sql@) {
            Ok(s) => r matches Ok(v) && v@ == s,
            Err(e) => r matches Err(f) && f@ == e,
        },
{
    let n = sql.len();
    proof {
        lemma_index_of_from(sql@, '(', 0);
        lemma_last_index_below(sql@, ')', sql@.len());
    }
    let open = match find_char(sql, '(', 0) {
        Some(o) => o,
        None => {
            return Err(StorageError::UnsupportedSchemaSql { reason: "missing `(`", sql: string_from_chars(sql) });
        },
    };
    proof { lemma_index_of_from(sql@, '(', 0); }
    let close = match rfind_char(sql, ')') {
        Some(c) => c,
        None => {
            return Err(StorageError::UnsupportedSchemaSql { reason: "missing `)`", sql: string_from_chars(sql) });
        },
    };
    proof { lemma_last_index_below(sql@, ')', sql@.len()); }
    if close < open {
        return Err(StorageError::UnsupportedSchemaSql { reason: "`)` before `(`", sql: string_from_chars(sql) });
    }
    Ok(vstd::slice::slice_to_vec(&sql[open + 1..close]))
}

/// What the `CREATE INDEX` statement `sql` describes: an index on the column
/// named between its parentheses.
pub open spec fn index_sql_spec(sql: Seq<char>) -> Result<RecordTypeView, StorageErrorView> {
    match between_parens_spec(sql) {
        Err(e) => Err(e),
        Ok(inner) => Ok(RecordTypeView::Index { col_name: lower(trim(inner)) }),
    }
}

pub fn parse_index_sql(sql: &[char]) -> (r: Result<RecordType, StorageError>)
    ensures
        match index_sql_spec(sql@) {
            Ok(t) => r matches Ok(v) && v@ == t,
            Err(e) => r matches Err(f) && f@ == e,
        },
{
    let inner = between_parens(sql)?;
    let name = trim_chars(inner.as_slice());
    Ok(RecordType::Index { col_name: Ident::from_chars(name.as_slice()) })
}

/// The column definitions of a `CREATE TABLE` body: the pieces between
/// commas, trimmed.
pub open spec fn column_definitions(inner: Seq<char>) -> Seq<Seq<char>> {
    split(inner, ',').map_values(|d: Seq<char>| trim(d))
}

/// The last of the first `n` definitions that declares the rowid alias.
pub open spec fn rowid_alias_below(defs: Seq<Seq<char>>, n: nat) -> Option<usize>
    decreases n,
{
    if n == 0 {
        None
    } else if contains(defs[n - 1], "integer primary key"@) {
        Some((n - 1) as usize)
    } else {
        rowid_alias_below(defs, (n - 1) as nat)
    }
}

/// The column names of the first `n` definitions, lower-cased.
pub open spec fn column_names(defs: Seq<Seq<char>>, n: nat) -> Seq<Seq<char>> {
    Seq::new(n, |i: int| lower(first_word(defs[i])->0))
}

/// What the `CREATE TABLE` statement `sql` describes: the first word of each
/// column definition is the column's name; a definition that holds
/// `integer primary key` makes its column the rowid alias (the last such
/// one counts).
pub open spec fn table_sql_spec(sql: Seq<char>) -> Result<RecordTypeView, StorageErrorView> {
    match between_parens_spec(sql) {
        Err(e) => Err(e),
        Ok(inner) => {
            let defs = column_definitions(inner);
            if exists|i: int| 0 <= i < defs.len() && #[trigger] first_word(defs[i]) is None {
                Err(unsupported("empty column definition"@, sql))
            } else {
                Ok(RecordTypeView::Table {
                    columns: column_names(defs, defs.len()),
                    rowid_alias: rowid_alias_below(defs, defs.len()),
                })
            }
        },
    }
}

proof fn lemma_rowid_alias_below(defs: Seq<Seq<char>>, n: nat)
    requires
        n <= defs.len(),
        n <= usize::MAX,
    ensures
        match rowid_alias_below(defs, n) {
            Some(k) => k < n && contains(defs[k as int], "integer primary key"@)
                && forall|j: int| k < j < n ==> !contains(#[trigger] defs[j], "integer primary key"@),
            None => forall|j: int| 0 <= j < n ==> !contains(#[trigger] defs[j], "integer primary key"@),
        },
    decreases n,
{
    if n > 0 {
        lemma_rowid_alias_below(defs, (n - 1) as nat);
    }
}

/// The rowid alias of a `CREATE TABLE` statement is the column of the last
/// definition that holds `integer primary key`, wherever it stands among
/// the definitions; there is none when no definition holds it. The table
/// has one column per definition. (A statement has fewer definitions than
/// `usize::MAX`, as it has fewer characters.)
pub proof fn lemma_rowid_alias_is_last_primary_key(sql: Seq<char>)
    ensures
        table_sql_spec(sql) matches Ok(RecordTypeView::Table { columns, rowid_alias }) ==> ({
            let defs = column_definitions(between_parens_spec(sql)->Ok_0);
            defs.len() <= usize::MAX ==> {
            &&& columns.len() == defs.len()
            &&& match rowid_alias {
                Some(k) => k < defs.len() && contains(defs[k as int], "integer primary key"@)
                    && forall|j: int| k < j < defs.len() ==> !contains(#[trigger] defs[j], "integer primary key"@),
                None => forall|j: int| 0 <= j < defs.len() ==> !contains(#[trigger] defs[j], "integer primary key"@),
            }
            }
        }),
{
    if let Ok(inner) = between_parens_spec(sql) {
        let defs = column_definitions(inner);
        if defs.len() <= usize::MAX {
            lemma_rowid_alias_below(defs, defs.len());
        }
    }
}

pub fn parse_table_sql(sql: &[char]) -> (r: Result<RecordType, StorageError>)
    ensures
        match table_sql_spec(sql@) {
            Ok(t) => r matches Ok(v) && v@ == t,
            Err(e) => r matches Err(f) && f@ == e,
        },
        r matches Ok(v) ==> v@ matches RecordTypeView::Table { rowid_alias, .. } && ({
            let defs = column_definitions(between_parens_spec(sql@)->Ok_0);
            match rowid_alias {
                Some(k) => k < defs.len() && contains(defs[k as int], "integer primary key"@)
                    && forall|j: int| k < j < defs.len() ==> !contains(#[trigger] defs[j], "integer primary key"@),
                None => forall|j: int| 0 <= j < defs.len() ==> !contains(#[trigger] defs[j], "integer primary key"@),
            }
        }),
{
    let inner = between_parens(sql)?;
    let pieces = split_chars(inner.as_slice(), ',');
    let ghost defs = column_definitions(inner@);
    let pk = chars_of("integer primary key");
    let mut parsed_columns: Vec<Ident> = Vec::new();
    let mut rowid_alias: Option<usize> = None;
    let mut idx: usize = 0;
    while idx < pieces.len()
        invariant
            idx <= pieces@.len(),
            char_views(pieces@) == split(inner@, ','),
            defs == column_definitions(inner@),
            between_parens_spec(sql@) == Ok::<Seq<char>, StorageErrorView>(inner@),
            defs.len() == pieces@.len(),
            pk@ == "integer primary key"@,
            ident_views(parsed_columns@) == column_names(defs, idx as nat),
            forall|i: int| 0 <= i < idx ==> #[trigger] first_word(defs[i]) is Some,
            rowid_alias == rowid_alias_below(defs, idx as nat),
        decreases pieces@.len() - idx,
    {
        assert(char_views(pieces@)[idx as int] == pieces@[idx as int]@);
        let definition = trim_chars(pieces[idx].as_slice());
        assert(definition@ == defs[idx as int]);
        let name = match first_word_chars(definition.as_slice()) {
            Some(w) => w,
            None => {
                assert(first_word(defs[idx as int]) is None);
                return Err(StorageError::UnsupportedSchemaSql {
                    reason: "empty column definition",
                    sql: string_from_chars(sql),
                });
            },
        };
        let ghost before = ident_views(parsed_columns@);
        let ident = Ident::from_chars(name.as_slice());
        assert(ident@ == lower(first_word(defs[idx as int])->0));
        parsed_columns.push(ident);
        if contains_chars(definition.as_slice(), pk.as_slice()) {
            rowid_alias = Some(idx);
        }
        idx = idx + 1;
        proof {
            assert(ident_views(parsed_columns@) =~= before.push(ident@));
            assert(ident_views(parsed_columns@) =~= column_names(defs, idx as nat));
        }
    }
    proof {
        lemma_rowid_alias_below(defs, defs.len());
    }
    Ok(RecordType::Table { parsed_columns, rowid_alias })
}


/// What the `sqlite_schema` row with values `values` describes: columns 0,
/// 2, 3 and 4 are the object type, the table name, the root page and the
/// `CREATE` statement (compared lower-cased), which must start with
/// `create <type>`.
pub open spec fn schema_row(values: Seq<ColumnView>) -> Result<SchemaView, StorageErrorView> {
    if values.len() != 5 {
        Err(StorageErrorView::SchemaRowLen(values.len() as usize))
    } else {
        match values[0] {
            ColumnView::Text(ty) => match values[2] {
                ColumnView::Text(tbl) => match values[4] {
                    ColumnView::Text(sql0) => {
                        let sql = lower(sql0);
                        if !starts_with(sql, "create "@ + ty) {
                            Err(unsupported("does not start with CREATE <type>"@, sql))
                        } else {
                            let rt = if ty == "table"@ {
                                table_sql_spec(sql)
                            } else if ty == "index"@ {
                                index_sql_spec(sql)
                            } else {
                                Err(StorageErrorView::UnknownObjectType(ty))
                            };
                            match rt {
                                Err(e) => Err(e),
                                Ok(t) => match values[3] {
                                    ColumnView::Int(root) => Ok(SchemaView { ty: t, tbl_name: lower(tbl), rootpage: root }),
                                    v => Err(StorageErrorView::SchemaColumnType { index: 3, expected: "Int"@, found: v }),
                                },
                            }
                        }
                    },
                    v => Err(StorageErrorView::SchemaColumnType { index: 4, expected: "Text"@, found: v }),
                },
                v => Err(StorageErrorView::SchemaColumnType { index: 2, expected: "Text"@, found: v }),
            },
            v => Err(StorageErrorView::SchemaColumnType { index: 0, expected: "Text"@, found: v }),
        }
    }
}

fn pop_column(values: &mut Vec<Column>) -> (r: Column)
    requires
        old(values)@.len() > 0,
    ensures
        final(values)@ == old(values)@.drop_last(),
        r == old(values)@.last(),
{
    values.pop().unwrap()
}

/// Reads one `sqlite_schema` row.
pub fn parse(values: Vec<Column>) -> (r: Result<SqliteSchema, StorageError>)
    ensures
        match schema_row(values.deep_view()) {
            Ok(v) => r matches Ok(s) && s@ == v,
            Err(e) => r matches Err(f) && f@ == e,
        },
{
    let ghost vs = values.deep_view();
    let len = values.len();
    if len != 5 {
        return Err(StorageError::SchemaRowLen(len));
    }
    let mut values = values;
    assert(values@[0]@ == vs[0] && values@[1]@ == vs[1] && values@[2]@ == vs[2] && values@[3]@ == vs[3] && values@[4]@ == vs[4]);
    let sql = pop_column(&mut values);
    let rootpage = pop_column(&mut values);
    let tbl_name = pop_column(&mut values);
    let _name = pop_column(&mut values);
    let ty = pop_column(&mut values);

    let ty = text(0, ty)?;
    let tbl_name = text(2, tbl_name)?;
    let sql = text(4, sql)?;
    let ty_chars = chars_of(ty.as_str());
    let sql_raw = chars_of(sql.as_str());
    let sql_chars = lower_chars(sql_raw.as_slice());
    let mut prefix = chars_of("create ");
    let mut ty_copy = ty_chars.clone();
    assert(ty_copy@ == ty_chars@);
    prefix.append(&mut ty_copy);
    if !starts_with_chars(sql_chars.as_slice(), prefix.as_slice()) {
        return Err(StorageError::UnsupportedSchemaSql {
            reason: "does not start with CREATE <type>",
            sql: string_from_chars(sql_chars.as_slice()),
        });
    }
    let table_word = chars_of("table");
    let index_word = chars_of("index");
    let rt = if chars_eq(ty_chars.as_slice(), table_word.as_slice()) {
        parse_table_sql(sql_chars.as_slice())?
    } else if chars_eq(ty_chars.as_slice(), index_word.as_slice()) {
        parse_index_sql(sql_chars.as_slice())?
    } else {
        return Err(StorageError::UnknownObjectType(ty));
    };
    let root = integer(3, rootpage)?;
    let tbl_chars = chars_of(tbl_name.as_str());
    Ok(SqliteSchema::new(rt, Ident::from_chars(tbl_chars.as_slice()), root))
}

/// The schemas of the cells at the pointers `ptrs` (from the `i`-th on) of
/// the first page `page`.
pub open spec fn schemas_from_cells(page: Seq<u8>, ptrs: Seq<u16>, i: nat) -> Result<Seq<SchemaView>, StorageErrorView>
    decreases ptrs.len() - i,
{
    if i >= ptrs.len() {
        Ok(Seq::empty())
    } else {
        let p = ptrs[i as int];
        if p > page.len() {
            Err(StorageErrorView::Truncated { need: p as usize, have: page.len() as usize })
        } else {
            match leaf_cell(page.subrange(p as int, page.len() as int)) {
                Err(e) => Err(e@),
                Ok((c, _)) => match schema_row(c.values) {
                    Err(e) => Err(e),
                    Ok(s) => match schemas_from_cells(page, ptrs, i + 1) {
                        Ok(ss) => Ok(seq![s] + ss),
                        Err(e) => Err(e),
                    },
                },
            }
        }
    }
}

/// The rows of `sqlite_schema`, whose b-tree is the first page `page`.
pub open spec fn schemas_spec(page: Seq<u8>) -> Result<Seq<SchemaView>, StorageErrorView> {
    match page_header_spec(page, 0) {
        Err(e) => Err(e@),
        Ok(h) => schemas_from_cells(page, h.cell_pointers, 0),
    }
}

/// Reads the rows of `sqlite_schema` from the first page `page_buf`.
pub fn parse_sqlite_schemas(page_buf: &[u8]) -> (r: Result<Vec<SqliteSchema>, StorageError>)
    ensures
        match schemas_spec(page_buf@) {
            Ok(v) => r matches Ok(s) && s.deep_view() == v,
            Err(e) => r matches Err(f) && f@ == e,
        },
{
    let len = page_buf.len();
    let header = page_header(page_buf, 0)?;
    let ptrs = header.cell_pointers();
    let ghost hv = header@;
    let mut schemas: Vec<SqliteSchema> = Vec::new();
    let mut i: usize = 0;
    while i < ptrs.len()
        invariant
            len == page_buf@.len(),
            i <= ptrs@.len(),
            ptrs@ == hv.cell_pointers,
            page_header_spec(page_buf@, 0) == Ok::<crate::page::PageHeaderView, StorageError>(hv),
            schemas_spec(page_buf@) == match schemas_from_cells(page_buf@, ptrs@, i as nat) {
                Ok(ss) => Ok(schemas.deep_view() + ss),
                Err(e) => Err::<Seq<SchemaView>, StorageErrorView>(e),
            },
        decreases ptrs@.len() - i,
    {
        let ptr = ptrs[i] as usize;
        if ptr > len {
            return Err(StorageError::Truncated { need: ptr, have: len });
        }
        let (cell, _) = parse_leaf_cell(&page_buf[ptr..len])?;
        let schema = parse(cell.record.values)?;
        let ghost before = schemas.deep_view();
        schemas.push(schema);
        i = i + 1;
        proof {
            assert(schemas.deep_view() == before + seq![schema@]);
            match schemas_from_cells(page_buf@, ptrs@, i as nat) {
                Ok(ss) => { assert(before + (seq![schema@] + ss) == schemas.deep_view() + ss); },
                Err(e) => {},
            }
        }
    }
    proof {
        assert(schemas.deep_view() + Seq::<SchemaView>::empty() == schemas.deep_view());
    }
    Ok(schemas)
}


proof fn lemma_schemas_from_cells_len(page: Seq<u8>, ptrs: Seq<u16>, i: nat)
    requires
        i <= ptrs.len(),
    ensures
        schemas_from_cells(page, ptrs, i) matches Ok(ss) ==> ss.len() == ptrs.len() - i,
    decreases ptrs.len() - i,
{
    if i < ptrs.len() {
        lemma_schemas_from_cells_len(page, ptrs, i + 1);
    }
}

/// The schema has one row per cell of the first page: the number of
/// tables that `.dbinfo` reports is the number of rows `.tables` lists.
pub proof fn lemma_one_schema_row_per_cell(page: Seq<u8>)
    ensures
        schemas_spec(page) matches Ok(ss) ==> (page_header_spec(page, 0) matches Ok(h) && ss.len() == h.cell_count),
{
    crate::page::lemma_page_header_shape(page, 0);
    if let Ok(h) = page_header_spec(page, 0) {
        lemma_schemas_from_cells_len(page, h.cell_pointers, 0);
    }
}

} // verus!
