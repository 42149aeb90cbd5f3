//! Turns a fixed-layout statistical variable listing into the parts of a
//! `CREATE TABLE` statement: locating the variable table in the report
//! text, validating each row into a column descriptor, ordering the
//! columns by their declared order field, and rendering the SQL text.

pub mod extract;
pub mod num;
pub mod row;
pub mod sql;
pub mod text;

pub use extract::find_table;

pub use num::parse_i32;
pub use row::ParseError;
pub use row::Row;
pub use sql::order_rows;
pub use sql::render_sql;
pub use sql::KeyError;

use vstd::prelude::*;

verus! {

/// What one conversion works on: the target table name, the report
/// file's name, and whether matching is case sensitive. The flag is
/// carried for the caller's sake; case folding of the row fields is
/// unconditional.
pub struct Config {
    pub tablename: String,
    pub filename: String,
    pub case_sensitive: bool,
}

impl Config {
    /// Builds a configuration from the command-line arguments (the
    /// program name, the table name and the file name, in that order)
    /// and the case-sensitivity flag the environment supplies.
    pub fn new(args: &[String], case_sensitive: bool) -> (r: Result<Config, &'static str>)
        ensures
            r is Ok <==> args@.len() >= 3,
            r is Ok ==> {
                &&& r->Ok_0.tablename@ == args@[1]@
                &&& r->Ok_0.filename@ == args@[2]@
                &&& r->Ok_0.case_sensitive == case_sensitive
            },
            r is Err ==> r->Err_0@ == "Not enough arguments, expected 3"@,
    {
        if args.len() < 3 {
            return Err("Not enough arguments, expected 3");
        }
        let tablename = args[1].clone();
        let filename = args[2].clone();
        Ok(Config { tablename, filename, case_sensitive })
    }
}

} // verus!
