# codecrafters_sqlite

A reader for SQLite 3 database files, verified with Verus: the record and
b-tree page formats, the `sqlite_schema` table with its `CREATE`
statements, and a small query dialect,
`SELECT <columns | COUNT(*)> FROM <table> [WHERE <column> = '<text>' ...]`.

- `src/` is the library. It works on the database bytes in memory; every
  function has a contract over spec functions, and the properties that
  span functions are proof functions (`lemma_*`) beside the code they
  speak of.
  - `common.rs`, `record.rs`, `page.rs`, `btree.rs`: varints, big-endian
    integers, serial types and column values, page headers, cells, and the
    walk over a table's b-tree.
  - `schema.rs`: `sqlite_schema` rows and the `CREATE TABLE` / `CREATE
    INDEX` text.
  - `tokenize.rs`, `parse.rs`, `resolve.rs`, `plan.rs`, `execute.rs`,
    `format.rs`, `sql_query.rs`: the query pipeline; `grammar.rs` writes
    out the token sequences the parser accepts, and `spacing.rs` shows that
    white space between tokens does not matter.
  - `dbinfo.rs`, `tables.rs`: the `.dbinfo` and `.tables` commands.
  - `text.rs`, `fmt.rs`: characters, strings and decimal text.
- `app/` is the command-line program: argument parsing, reading the file,
  error messages, logging, and the decimal form of floating-point values.
- `tests/` exercises the library on byte strings and on small databases
  built in memory.
