//! The `.dbinfo` command.

use vstd::prelude::*;
use crate::error::StorageError;
use crate::fmt::{decimal, push_decimal};
use crate::page::{page_header, page_header_spec};
use crate::text::{chars_of, string_from_chars};

verus! {

/// What `.dbinfo` reports about the database whose first page is `page`.
pub open spec fn dbinfo_spec(page: Seq<u8>) -> Result<Seq<char>, StorageError> {
    match page_header_spec(page, 0) {
        Ok(h) => Ok("number of tables: "@ + decimal(h.cell_count as nat)),
        Err(e) => Err(e),
    }
}

/// Reports the number of rows of `sqlite_schema`, the cells of the first page.
pub fn run(page_buf: &[u8]) -> (r: Result<String, StorageError>)
    ensures
        match dbinfo_spec(page_buf@) {
            Ok(t) => r matches Ok(s) && s@ == t,
            Err(e) => r matches Err(f) && f == e,
        },
{
    let page_header = page_header(page_buf, 0)?;
    let cell_count = page_header.cell_count();
    let mut out = chars_of("number of tables: ");
    push_decimal(cell_count as u64, &mut out);
    Ok(string_from_chars(out.as_slice()))
}

} // verus!
