//! The search over the store: which relation a query goes to, and what is
//! handed out for what the store answered.

use crate::text::{chars_of, text_is};
use vstd::prelude::*;

verus! {

/// The most rows that a search hands out.
pub const MAX_RESULTS: usize = 80;

/// What a query is matched against.
#[derive(Clone, Copy, Debug, PartialEq, Eq)]
pub enum SearchType {
    /// The names of the packages.
    Package,
    /// The names of the files.
    File,
}

/// Why the store gave no rows.
#[derive(Clone, Copy, Debug, PartialEq, Eq)]
pub enum QueryError {
    /// The query could not be prepared: the store has no schema yet, or the
    /// query is not one that the store can read.
    Prepare,
    /// A row did not have the shape of its relation.
    RowMap,
}

/// The search type that a name stands for.
pub open spec fn type_named(name: Seq<char>) -> Option<SearchType> {
    if name == "package"@ {
        Some(SearchType::Package)
    } else if name == "file"@ {
        Some(SearchType::File)
    } else {
        None
    }
}

/// The rows handed out for an answer of the store: the first rows of the
/// answer, up to the limit, or none where the store failed.
pub open spec fn handed_out<T>(answer: Result<Vec<T>, QueryError>) -> Seq<T> {
    match answer {
        Ok(rows) => if rows@.len() <= MAX_RESULTS {
            rows@
        } else {
            rows@.take(MAX_RESULTS as int)
        },
        Err(_) => Seq::empty(),
    }
}

impl SearchType {
    /// The search type to use where a request may leave it out: packages.
    pub fn or_default(choice: Option<SearchType>) -> (search: SearchType)
        ensures
            search == match choice {
                Some(given) => given,
                None => SearchType::Package,
            },
    {
        match choice {
            Some(given) => given,
            None => SearchType::Package,
        }
    }

    /// The name of the search type in a request.
    pub fn name(&self) -> (name: &'static str)
        ensures
            type_named(name@) == Some(*self),
    {
        proof {
            reveal_strlit("package");
            reveal_strlit("file");
            assert("package"@.len() != "file"@.len());
        }
        match self {
            SearchType::Package => "package",
            SearchType::File => "file",
        }
    }

    /// The search type that `name` stands for, if it stands for one.
    pub fn from_name(name: &str) -> (search: Option<SearchType>)
        ensures
            search == type_named(name@),
    {
        let chars = chars_of(name);
        assert(chars@.subrange(0, chars@.len() as int) =~= name@);
        if text_is(chars.as_slice(), 0, chars.len(), "package") {
            Some(SearchType::Package)
        } else if text_is(chars.as_slice(), 0, chars.len(), "file") {
            Some(SearchType::File)
        } else {
            None
        }
    }
}

/// What a search hands out for what the store answered.
///
/// The rows come in the store's order and are cut off at [`MAX_RESULTS`]. A
/// store that fails, as one without a schema does, gives an empty list: the
/// search stays available while the store is being loaded.
pub fn results<T>(answer: Result<Vec<T>, QueryError>) -> (out: Vec<T>)
    ensures
        out@ == handed_out(answer),
        out@.len() <= MAX_RESULTS,
{
    match answer {
        Ok(rows) => {
            let mut rows = rows;
            if rows.len() > MAX_RESULTS {
                rows.truncate(MAX_RESULTS);
            }
            rows
        },
        Err(_) => Vec::new(),
    }
}

} // verus!
