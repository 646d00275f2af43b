//! The `.tables` command.

use vstd::prelude::*;
use crate::fmt::{join, push_joined, string_views};
use crate::resolve::schema_views;
use crate::schema::SqliteSchema;
use crate::text::{chars_of, string_from_chars};

verus! {

/// The table names of the schema rows `schemas`, in order, separated by spaces.
pub open spec fn tables_spec(schemas: Seq<crate::schema::SchemaView>) -> Seq<char> {
    join(schemas.map_values(|s: crate::schema::SchemaView| s.tbl_name), " "@)
}

/// Lists the table names of the schema rows, separated by spaces.
pub fn run(schemas: &[SqliteSchema]) -> (r: String)
    ensures
        r@ == tables_spec(schema_views(schemas@)),
{
    let mut names: Vec<String> = Vec::new();
    let mut i: usize = 0;
    while i < schemas.len()
        invariant
            i <= schemas@.len(),
            string_views(names@) == schema_views(schemas@).take(i as int).map_values(|s: crate::schema::SchemaView| s.tbl_name),
        decreases schemas@.len() - i,
    {
        assert(schema_views(schemas@)[i as int] == schemas@[i as int]@);
        let name = schemas[i].tbl_name().as_str();
        let cs = chars_of(name);
        let ghost before = string_views(names@);
        let s = string_from_chars(cs.as_slice());
        let ghost sv = s@;
        names.push(s);
        assert(string_views(names@) == before.push(sv));
        let ghost all = schema_views(schemas@);
        assert(all.take(i + 1) == all.take(i as int).push(all[i as int]));
        i = i + 1;
        proof {
            assert(string_views(names@) =~= schema_views(schemas@).take(i as int).map_values(|s: crate::schema::SchemaView| s.tbl_name));
        }
    }
    proof {
        assert(schema_views(schemas@).take(schemas@.len() as int) == schema_views(schemas@));
    }
    let space = chars_of(" ");
    let mut out: Vec<char> = Vec::new();
    push_joined(names.as_slice(), space.as_slice(), &mut out);
    assert(out@ == join(string_views(names@), " "@));
    string_from_chars(out.as_slice())
}

} // verus!
