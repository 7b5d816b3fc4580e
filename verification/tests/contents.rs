use package_search::contents::{parse_contents, parse_contents_line, read_pairs};
use package_search::package::PackageFile;

fn pair(filename: &str, package: &str) -> PackageFile {
    PackageFile { filename: filename.to_string(), package: package.to_string() }
}

#[test]
fn line_with_two_packages_gives_two_pairs() {
    let found = parse_contents_line("usr/bin/foo  pkgA,pkgB");
    assert_eq!(found, vec![pair("usr/bin/foo", "pkgA"), pair("usr/bin/foo", "pkgB")]);
}

#[test]
fn line_with_one_package_gives_one_pair() {
    let found = parse_contents_line("bin/ls\tutils/coreutils");
    assert_eq!(found, vec![pair("bin/ls", "utils/coreutils")]);
}

#[test]
fn line_without_exactly_two_tokens_gives_no_pair() {
    assert_eq!(parse_contents_line(""), vec![]);
    assert_eq!(parse_contents_line("   "), vec![]);
    assert_eq!(parse_contents_line("usr/bin/foo"), vec![]);
    assert_eq!(parse_contents_line("usr/bin/foo pkgA pkgB"), vec![]);
    assert_eq!(parse_contents_line("usr/share/my file.txt pkgA"), vec![]);
    assert_eq!(parse_contents_line("FILE LOCATION extra words"), vec![]);
}

#[test]
fn white_space_around_the_fields_is_ignored() {
    let found = parse_contents_line(" \t usr/bin/foo \u{a0}\t pkgA,pkgB \r");
    assert_eq!(found, vec![pair("usr/bin/foo", "pkgA"), pair("usr/bin/foo", "pkgB")]);
}

#[test]
fn empty_entries_of_the_package_list_are_kept() {
    let found = parse_contents_line("usr/bin/foo pkgA,,pkgB,");
    assert_eq!(
        found,
        vec![
            pair("usr/bin/foo", "pkgA"),
            pair("usr/bin/foo", ""),
            pair("usr/bin/foo", "pkgB"),
            pair("usr/bin/foo", ""),
        ]
    );
    assert_eq!(parse_contents_line("f ,"), vec![pair("f", ""), pair("f", "")]);
}

#[test]
fn pairs_are_appended_to_what_is_there() {
    let text: Vec<char> = "[a b,c]".chars().collect();
    let mut out = vec![pair("x", "y")];
    read_pairs(&text, 1, 6, &mut out);
    assert_eq!(out, vec![pair("x", "y"), pair("a", "b"), pair("a", "c")]);
    read_pairs(&text, 0, 7, &mut out);
    assert_eq!(out.len(), 5);
    assert_eq!(out[3], pair("[a", "b"));
    assert_eq!(out[4], pair("[a", "c]"));
    read_pairs(&text, 1, 2, &mut out);
    assert_eq!(out.len(), 5);
}

#[test]
fn text_gives_the_pairs_of_its_lines_in_order() {
    let text = "bin/a  one\n\nnot a mapping line\nbin/b\ttwo,three\r\nbin/c four";
    let found = parse_contents(text);
    assert_eq!(
        found,
        vec![
            pair("bin/a", "one"),
            pair("bin/b", "two"),
            pair("bin/b", "three"),
            pair("bin/c", "four"),
        ]
    );
    assert_eq!(parse_contents(""), vec![]);
}

#[test]
fn pairs_of_a_text_agree_with_its_lines() {
    let text = "a b\nc d,e\n\nf\ng h i\nj k,\n";
    let mut found = Vec::new();
    for line in text.lines() {
        found.extend(parse_contents_line(line));
    }
    assert_eq!(found, parse_contents(text));
    assert_eq!(found.len(), 5);
}
