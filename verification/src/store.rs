//! The schema of the store: two relations with a full-text index, and the
//! statements that create, fill and search them.

use crate::ingest::Table;
use crate::search::SearchType;
use vstd::prelude::*;

verus! {

/// Text of the statement that creates a relation.
pub open spec fn create_text(table: Table) -> Seq<char> {
    match table {
        Table::Packages => "CREATE VIRTUAL TABLE packages USING fts4(name, version, source, description)"@,
        Table::Contents => "CREATE VIRTUAL TABLE contents USING fts4(filename, package)"@,
    }
}

/// Text of the statement that inserts one row into a relation, with one
/// parameter for each column.
pub open spec fn insert_text(table: Table) -> Seq<char> {
    match table {
        Table::Packages => "INSERT INTO packages (name, version, source, description) VALUES (?, ?, ?, ?)"@,
        Table::Contents => "INSERT INTO contents (filename, package) VALUES (?, ?)"@,
    }
}

/// Text of the statement that matches its one parameter against the names
/// of a relation and gives at most 80 rows.
pub open spec fn search_text(search: SearchType) -> Seq<char> {
    match search {
        SearchType::Package => "SELECT name, version, source, description FROM packages WHERE name MATCH ?1 LIMIT 80"@,
        SearchType::File => "SELECT filename, package FROM contents WHERE filename MATCH ?1 LIMIT 80"@,
    }
}

/// The statement that creates a relation. It fails where the relation
/// exists.
pub fn create_statement(table: Table) -> (sql: &'static str)
    ensures
        sql@ == create_text(table),
{
    match table {
        Table::Packages => "CREATE VIRTUAL TABLE packages USING fts4(name, version, source, description)",
        Table::Contents => "CREATE VIRTUAL TABLE contents USING fts4(filename, package)",
    }
}

/// The statement that inserts one row into a relation.
pub fn insert_statement(table: Table) -> (sql: &'static str)
    ensures
        sql@ == insert_text(table),
{
    match table {
        Table::Packages => "INSERT INTO packages (name, version, source, description) VALUES (?, ?, ?, ?)",
        Table::Contents => "INSERT INTO contents (filename, package) VALUES (?, ?)",
    }
}

/// The statement that searches a relation.
pub fn search_statement(search: SearchType) -> (sql: &'static str)
    ensures
        sql@ == search_text(search),
{
    match search {
        SearchType::Package => "SELECT name, version, source, description FROM packages WHERE name MATCH ?1 LIMIT 80",
        SearchType::File => "SELECT filename, package FROM contents WHERE filename MATCH ?1 LIMIT 80",
    }
}

} // verus!
