use package_search::package::Package;
use package_search::stanza::{parse_packages, PackageReader, StanzaParser};

fn package(name: &str, version: &str, source: &str, description: &str) -> Package {
    Package {
        name: name.to_string(),
        version: version.to_string(),
        source: source.to_string(),
        description: description.to_string(),
    }
}

#[test]
fn empty_package_has_empty_fields() {
    let p = Package::empty();
    assert_eq!(p, package("", "", "", ""));
}

#[test]
fn two_stanzas_give_two_records() {
    let text = "Package: a\nVersion: 1\nDescription: d\n\nPackage: b\nVersion: 2\n\n";
    let found = parse_packages("main", text);
    assert_eq!(found, vec![package("a", "1", "main", "d"), package("b", "2", "main", "")]);
}

#[test]
fn one_record_per_stanza_with_last_value_of_each_key() {
    let text = "Package: first\nVersion: 1\nVersion: 2\nDescription: old\nDescription: new\n\n\
                Package: x\nPackage: second\nVersion: 3\n\n\
                Description: only\nPackage: third\n\n";
    let found = parse_packages("universe", text);
    assert_eq!(
        found,
        vec![
            package("first", "2", "universe", "new"),
            package("second", "3", "universe", ""),
            package("third", "", "universe", "only"),
        ]
    );
}

#[test]
fn stanza_without_package_line_gives_no_record() {
    assert_eq!(parse_packages("main", "Version: 1\nDescription: d\n\n"), vec![]);
    assert_eq!(parse_packages("main", "Version: 1\n\nDescription: d\n\n\n"), vec![]);
}

#[test]
fn fields_before_a_package_line_stay_until_a_record_is_complete() {
    let found = parse_packages("main", "Version: 9\n\nPackage: a\n\n");
    assert_eq!(found, vec![package("a", "9", "main", "")]);
}

#[test]
fn trailing_stanza_without_blank_line_is_dropped() {
    assert_eq!(parse_packages("main", "Package: a\nVersion: 1"), vec![]);
    assert_eq!(parse_packages("main", "Package: a\nVersion: 1\n"), vec![]);
    let found = parse_packages("main", "Package: a\n\nPackage: b\nVersion: 2\n");
    assert_eq!(found, vec![package("a", "", "main", "")]);
}

#[test]
fn line_of_white_space_closes_a_stanza() {
    let found = parse_packages("main", "Package: a\n \t \nPackage: b\n\u{a0}\n");
    assert_eq!(found, vec![package("a", "", "main", ""), package("b", "", "main", "")]);
}

#[test]
fn value_with_a_colon_defeats_its_line() {
    let text = "Package: a\nDescription: see: below\nHomepage: http://example.org\nVersion: 1:2.0\n\n";
    let found = parse_packages("main", text);
    assert_eq!(found, vec![package("a", "", "main", "")]);
}

#[test]
fn package_line_with_a_second_colon_does_not_name_the_stanza() {
    assert_eq!(parse_packages("main", "Package: a:b\n\n"), vec![]);
}

#[test]
fn keys_and_values_are_trimmed() {
    let found = parse_packages("main", "  Package  :   spaced out  \n\tVersion:\t1.0\t\n\n");
    assert_eq!(found, vec![package("spaced out", "1.0", "main", "")]);
}

#[test]
fn keys_are_case_sensitive_and_unknown_keys_are_ignored() {
    let text = "package: lower\nPACKAGE: upper\nPackage: right\nversion: 1\nMaintainer: me\nPackages: no\n\n";
    let found = parse_packages("main", text);
    assert_eq!(found, vec![package("right", "", "main", "")]);
}

#[test]
fn empty_value_is_kept() {
    let found = parse_packages("main", "Package:\n\n");
    assert_eq!(found, vec![package("", "", "main", "")]);
    let found = parse_packages("main", "Package: a\nVersion: 1\nVersion:\n\n");
    assert_eq!(found, vec![package("a", "", "main", "")]);
}

#[test]
fn carriage_returns_are_trimmed_away() {
    let found = parse_packages("main", "Package: a\r\nVersion: 1\r\n\r\n");
    assert_eq!(found, vec![package("a", "1", "main", "")]);
}

#[test]
fn several_blank_lines_between_stanzas_add_nothing() {
    let found = parse_packages("main", "\n\nPackage: a\n\n\n\nPackage: b\n\n\n");
    assert_eq!(found, vec![package("a", "", "main", ""), package("b", "", "main", "")]);
}

#[test]
fn empty_text_gives_no_record() {
    assert_eq!(parse_packages("main", ""), vec![]);
    assert_eq!(parse_packages("main", "\n"), vec![]);
}

#[test]
fn unicode_white_space_is_trimmed() {
    let found = parse_packages("main", "\u{2003}Package:\u{3000}n\u{e4}me\u{a0}\n\n");
    assert_eq!(found, vec![package("n\u{e4}me", "", "main", "")]);
}

#[test]
fn same_text_gives_same_records() {
    let text = "Package: a\nVersion: 1\n\nVersion: 2\n\nPackage: b\n\nPackage: c";
    let first = parse_packages("main", text);
    let second = parse_packages("main", text);
    assert_eq!(first, second);
    assert_eq!(first, vec![package("a", "1", "main", ""), package("b", "2", "main", "")]);
}

#[test]
fn new_parser_knows_nothing_of_an_earlier_one() {
    let mut first = StanzaParser::new("main".to_string());
    assert_eq!(first.feed("Package: a"), None);
    assert_eq!(first.feed("Version: 1"), None);
    let mut second = StanzaParser::new("main".to_string());
    assert!(!second.name_seen());
    assert_eq!(second.feed(""), None);
    assert_eq!(second.feed("Package: b"), None);
    assert_eq!(second.feed(""), Some(package("b", "", "main", "")));
    assert_eq!(first.feed(""), Some(package("a", "1", "main", "")));
}

#[test]
fn parser_takes_lines_one_at_a_time() {
    let mut parser = StanzaParser::new("restricted".to_string());
    assert!(!parser.name_seen());
    assert_eq!(parser.feed("Version: 1"), None);
    assert!(!parser.name_seen());
    assert_eq!(parser.feed(""), None);
    assert_eq!(parser.feed("Package: a"), None);
    assert!(parser.name_seen());
    assert_eq!(parser.feed("Description: d"), None);
    assert_eq!(parser.feed("   "), Some(package("a", "1", "restricted", "d")));
    assert!(!parser.name_seen());
    assert_eq!(parser.feed(""), None);
    assert_eq!(parser.feed("Package: b"), None);
    assert_eq!(parser.feed(""), Some(package("b", "", "restricted", "")));
}

#[test]
fn parser_takes_a_line_out_of_a_longer_text() {
    let text: Vec<char> = "xxPackage: ayy".chars().collect();
    let mut parser = StanzaParser::new("main".to_string());
    assert_eq!(parser.feed_chars(&text, 2, 12), None);
    assert!(parser.name_seen());
    assert_eq!(parser.feed_chars(&text, 12, 12), Some(package("a", "", "main", "")));
}

#[test]
fn records_agree_with_reading_line_by_line() {
    let text = "Package: a\nVersion: 1\n\nFoo\nPackage: b\nDescription: x y z\n\n\nPackage: c\n";
    let mut parser = StanzaParser::new("multiverse".to_string());
    let mut found = Vec::new();
    for line in text.lines() {
        if let Some(record) = parser.feed(line) {
            found.push(record);
        }
    }
    assert_eq!(found, parse_packages("multiverse", text));
    assert_eq!(found.len(), 2);
}

#[test]
fn reader_hands_out_the_records_one_after_the_other() {
    let text = "Package: a\nVersion: 1\n\nVersion: 2\n\nPackage: b\n\nPackage: c";
    let mut reader = PackageReader::new("main".to_string(), text);
    assert_eq!(reader.next(), Some(package("a", "1", "main", "")));
    assert_eq!(reader.next(), Some(package("b", "2", "main", "")));
    assert_eq!(reader.next(), None);
    assert_eq!(reader.next(), None);
}

#[test]
fn reader_of_an_empty_text_hands_out_nothing() {
    let mut reader = PackageReader::new("main".to_string(), "");
    assert_eq!(reader.next(), None);
    let mut reader = PackageReader::new("main".to_string(), "\n\n\n");
    assert_eq!(reader.next(), None);
    assert_eq!(reader.next(), None);
}

#[test]
fn reader_agrees_with_reading_the_whole_text() {
    let text = "Package: a\n\n\nFoo: bar\nPackage: b\nDescription: d\n \nPackage: c\n\n";
    let mut reader = PackageReader::new("universe".to_string(), text);
    let mut found = Vec::new();
    while let Some(record) = reader.next() {
        found.push(record);
    }
    assert_eq!(found, parse_packages("universe", text));
    assert_eq!(found.len(), 3);
}
