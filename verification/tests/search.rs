use package_search::ingest::Table;
use package_search::package::Package;
use package_search::search::{results, QueryError, SearchType, MAX_RESULTS};
use package_search::store::{create_statement, insert_statement, search_statement};

fn numbered(count: usize) -> Vec<Package> {
    (0..count)
        .map(|i| Package {
            name: format!("p{}", i),
            version: String::new(),
            source: "main".to_string(),
            description: String::new(),
        })
        .collect()
}

#[test]
fn limit_is_eighty() {
    assert_eq!(MAX_RESULTS, 80);
}

#[test]
fn few_rows_are_handed_out_as_they_are() {
    assert_eq!(results(Ok(numbered(0))), numbered(0));
    assert_eq!(results(Ok(numbered(3))), numbered(3));
    assert_eq!(results(Ok(numbered(80))), numbered(80));
}

#[test]
fn rows_beyond_the_limit_are_cut_off() {
    assert_eq!(results(Ok(numbered(81))), numbered(80));
    assert_eq!(results(Ok(numbered(500))), numbered(80));
}

#[test]
fn failed_query_gives_no_rows() {
    assert_eq!(results::<Package>(Err(QueryError::Prepare)), vec![]);
    assert_eq!(results::<Package>(Err(QueryError::RowMap)), vec![]);
}

#[test]
fn search_type_defaults_to_packages() {
    assert_eq!(SearchType::or_default(None), SearchType::Package);
    assert_eq!(SearchType::or_default(Some(SearchType::Package)), SearchType::Package);
    assert_eq!(SearchType::or_default(Some(SearchType::File)), SearchType::File);
}

#[test]
fn search_types_have_names() {
    assert_eq!(SearchType::Package.name(), "package");
    assert_eq!(SearchType::File.name(), "file");
    assert_eq!(SearchType::from_name("package"), Some(SearchType::Package));
    assert_eq!(SearchType::from_name("file"), Some(SearchType::File));
    assert_eq!(SearchType::from_name("Package"), None);
    assert_eq!(SearchType::from_name("files"), None);
    assert_eq!(SearchType::from_name(""), None);
    assert_eq!(SearchType::from_name(" file"), None);
}

#[test]
fn statements_of_the_store() {
    assert_eq!(
        create_statement(Table::Packages),
        "CREATE VIRTUAL TABLE packages USING fts4(name, version, source, description)"
    );
    assert_eq!(
        create_statement(Table::Contents),
        "CREATE VIRTUAL TABLE contents USING fts4(filename, package)"
    );
    assert_eq!(
        insert_statement(Table::Packages),
        "INSERT INTO packages (name, version, source, description) VALUES (?, ?, ?, ?)"
    );
    assert_eq!(
        insert_statement(Table::Contents),
        "INSERT INTO contents (filename, package) VALUES (?, ?)"
    );
    assert_eq!(
        search_statement(SearchType::Package),
        "SELECT name, version, source, description FROM packages WHERE name MATCH ?1 LIMIT 80"
    );
    assert_eq!(
        search_statement(SearchType::File),
        "SELECT filename, package FROM contents WHERE filename MATCH ?1 LIMIT 80"
    );
}

#[test]
fn search_statements_carry_the_limit() {
    let limit = format!(" LIMIT {}", MAX_RESULTS);
    assert!(search_statement(SearchType::Package).ends_with(&limit));
    assert!(search_statement(SearchType::File).ends_with(&limit));
}
