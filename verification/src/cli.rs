//! What the command line asks for.

use vstd::prelude::*;

verus! {

/// The command line: the database file and the command to run on it.
#[derive(Debug)]
pub struct Cli {
    pub db_path: String,
    pub cmd: Command,
}

/// The commands: `.dbinfo`, `.tables`, or an SQL query given as words.
#[derive(Debug)]
pub enum Command {
    DbInfo,
    Tables,
    SqlQuery(Vec<String>),
}

impl Command {
    /// The command's name.
    pub fn name(&self) -> (r: &'static str)
        ensures
            r@ == (match self {
                Command::DbInfo => "DbInfo"@,
                Command::Tables => "Tables"@,
                Command::SqlQuery(_) => "SqlQuery"@,
            }),
    {
        match self {
            Command::DbInfo => "DbInfo",
            Command::Tables => "Tables",
            Command::SqlQuery(_) => "SqlQuery",
        }
    }
}

} // verus!
