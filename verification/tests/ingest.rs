use package_search::config::{Config, Source};
use package_search::ingest::{Command, Event, Failure, Ingestion, Stage, Table};
use package_search::contents::parse_contents;
use package_search::package::{Package, PackageFile};
use package_search::stanza::parse_packages;

fn config(labels: &[&str]) -> Config {
    Config {
        database_file: "unused".to_string(),
        package_sources: labels
            .iter()
            .map(|label| Source::new(label, &format!("http://mirror/{}", label)))
            .collect(),
        contents_url: "http://mirror/contents".to_string(),
    }
}

fn package(name: &str, version: &str, source: &str, description: &str) -> Package {
    Package {
        name: name.to_string(),
        version: version.to_string(),
        source: source.to_string(),
        description: description.to_string(),
    }
}

fn pair(filename: &str, package: &str) -> PackageFile {
    PackageFile { filename: filename.to_string(), package: package.to_string() }
}

fn line(text: &str) -> Event {
    Event::Line(text.to_string())
}

/// Brings a load of the given components to the point where the first
/// package feed is being read.
fn reading_first_feed(labels: &[&str]) -> Ingestion {
    let (mut load, first) = Ingestion::new(config(labels));
    assert_eq!(first, Command::CreateTable(Table::Packages));
    assert_eq!(load.next(Event::Done), Command::CreateTable(Table::Contents));
    assert_eq!(load.next(Event::Done), Command::Begin(Table::Packages));
    assert_eq!(load.next(Event::Done), Command::Open(format!("http://mirror/{}", labels[0])));
    assert_eq!(load.next(Event::Done), Command::ReadLine);
    load
}

#[test]
fn load_starts_with_the_schema() {
    let (load, first) = Ingestion::new(config(&["main"]));
    assert_eq!(first, Command::CreateTable(Table::Packages));
    assert_eq!(load.stage(), Stage::Schema(Table::Packages));
}

#[test]
fn complete_load_runs_both_transactions_in_order() {
    let (mut load, first) = Ingestion::new(config(&["main", "universe"]));
    let mut issued = vec![first];
    let events = vec![
        Event::Done,
        Event::Done,
        Event::Done,
        Event::Done,
        line("Package: a"),
        line("Version: 1"),
        line(""),
        Event::Done,
        line("Package: dropped"),
        Event::EndOfInput,
        Event::Done,
        line("Version: 2"),
        line("Package: b"),
        line(""),
        Event::Done,
        Event::EndOfInput,
        Event::Done,
        Event::Done,
        Event::Done,
        line("bin/x  p,q"),
        Event::Done,
        line("not a mapping line"),
        line("bin/y r"),
        Event::Done,
        Event::EndOfInput,
        Event::Done,
    ];
    for event in events {
        issued.push(load.next(event));
    }
    assert_eq!(
        issued,
        vec![
            Command::CreateTable(Table::Packages),
            Command::CreateTable(Table::Contents),
            Command::Begin(Table::Packages),
            Command::Open("http://mirror/main".to_string()),
            Command::ReadLine,
            Command::ReadLine,
            Command::ReadLine,
            Command::InsertPackage(package("a", "1", "main", "")),
            Command::ReadLine,
            Command::ReadLine,
            Command::Open("http://mirror/universe".to_string()),
            Command::ReadLine,
            Command::ReadLine,
            Command::ReadLine,
            Command::InsertPackage(package("b", "2", "universe", "")),
            Command::ReadLine,
            Command::Commit,
            Command::Begin(Table::Contents),
            Command::Open("http://mirror/contents".to_string()),
            Command::ReadLine,
            Command::InsertFiles(vec![pair("bin/x", "p"), pair("bin/x", "q")]),
            Command::ReadLine,
            Command::ReadLine,
            Command::InsertFiles(vec![pair("bin/y", "r")]),
            Command::ReadLine,
            Command::Commit,
            Command::Finish,
        ]
    );
    assert_eq!(load.stage(), Stage::Finished);
    assert_eq!(load.next(Event::Done), Command::Finish);
    assert_eq!(load.next(Event::Failed), Command::Finish);
    assert_eq!(load.stage(), Stage::Finished);
}

#[test]
fn load_without_package_feeds_commits_at_once() {
    let (mut load, _) = Ingestion::new(config(&[]));
    assert_eq!(load.next(Event::Done), Command::CreateTable(Table::Contents));
    assert_eq!(load.next(Event::Done), Command::Begin(Table::Packages));
    assert_eq!(load.next(Event::Done), Command::Commit);
    assert_eq!(load.next(Event::Done), Command::Begin(Table::Contents));
    assert_eq!(load.next(Event::Done), Command::Open("http://mirror/contents".to_string()));
}

#[test]
fn failed_fetch_of_second_feed_ends_the_load_without_a_commit() {
    let mut load = reading_first_feed(&["main", "universe"]);
    assert_eq!(load.next(line("Package: a")), Command::ReadLine);
    assert_eq!(load.next(line("")), Command::InsertPackage(package("a", "", "main", "")));
    assert_eq!(load.next(Event::Done), Command::ReadLine);
    assert_eq!(load.next(Event::EndOfInput), Command::Open("http://mirror/universe".to_string()));
    assert_eq!(load.next(Event::Failed), Command::Abort(Failure::Fetch));
    assert_eq!(load.stage(), Stage::Failed(Failure::Fetch));
    for event in [Event::Done, line("Package: b"), line(""), Event::EndOfInput, Event::Failed] {
        assert_eq!(load.next(event), Command::Abort(Failure::Fetch));
    }
    assert_eq!(load.stage(), Stage::Failed(Failure::Fetch));
}

#[test]
fn each_stage_fails_with_its_own_failure() {
    let (mut load, _) = Ingestion::new(config(&["main"]));
    assert_eq!(load.next(Event::Failed), Command::Abort(Failure::Schema));

    let (mut load, _) = Ingestion::new(config(&["main"]));
    load.next(Event::Done);
    assert_eq!(load.next(Event::Failed), Command::Abort(Failure::Schema));

    let (mut load, _) = Ingestion::new(config(&["main"]));
    load.next(Event::Done);
    load.next(Event::Done);
    assert_eq!(load.stage(), Stage::Opening(Table::Packages));
    assert_eq!(load.next(Event::Failed), Command::Abort(Failure::Write));

    let (mut load, _) = Ingestion::new(config(&["main"]));
    load.next(Event::Done);
    load.next(Event::Done);
    load.next(Event::Done);
    assert_eq!(load.stage(), Stage::Fetching(Table::Packages, 0));
    assert_eq!(load.next(Event::Failed), Command::Abort(Failure::Fetch));

    let mut load = reading_first_feed(&["main"]);
    assert_eq!(load.stage(), Stage::Reading(Table::Packages, 0));
    assert_eq!(load.next(Event::Failed), Command::Abort(Failure::Decode));

    let mut load = reading_first_feed(&["main"]);
    load.next(line("Package: a"));
    load.next(line(""));
    assert_eq!(load.stage(), Stage::Writing(Table::Packages, 0));
    assert_eq!(load.next(Event::Failed), Command::Abort(Failure::Write));

    let mut load = reading_first_feed(&["main"]);
    assert_eq!(load.next(Event::EndOfInput), Command::Commit);
    assert_eq!(load.stage(), Stage::Committing(Table::Packages));
    assert_eq!(load.next(Event::Failed), Command::Abort(Failure::Write));
}

#[test]
fn failure_in_the_second_transaction_ends_the_load() {
    let mut load = reading_first_feed(&["main"]);
    assert_eq!(load.next(Event::EndOfInput), Command::Commit);
    assert_eq!(load.next(Event::Done), Command::Begin(Table::Contents));
    assert_eq!(load.next(Event::Done), Command::Open("http://mirror/contents".to_string()));
    assert_eq!(load.next(Event::Done), Command::ReadLine);
    assert_eq!(load.next(line("bin/x p")), Command::InsertFiles(vec![pair("bin/x", "p")]));
    assert_eq!(load.next(Event::Done), Command::ReadLine);
    assert_eq!(load.next(Event::Failed), Command::Abort(Failure::Decode));
    assert_eq!(load.next(Event::EndOfInput), Command::Abort(Failure::Decode));
}

#[test]
fn event_that_the_command_cannot_have_ends_the_load() {
    let (mut load, _) = Ingestion::new(config(&["main"]));
    assert_eq!(load.next(line("Package: a")), Command::Abort(Failure::Schema));

    let mut load = reading_first_feed(&["main"]);
    assert_eq!(load.next(Event::Done), Command::Abort(Failure::Decode));

    let mut load = reading_first_feed(&["main"]);
    load.next(line("Package: a"));
    load.next(line(""));
    assert_eq!(load.next(Event::EndOfInput), Command::Abort(Failure::Write));

    let mut load = reading_first_feed(&["main"]);
    load.next(Event::EndOfInput);
    assert_eq!(load.next(line("")), Command::Abort(Failure::Write));
}

#[test]
fn each_feed_gets_a_reader_of_its_own() {
    let mut load = reading_first_feed(&["main", "universe"]);
    assert_eq!(load.next(line("Package: half")), Command::ReadLine);
    assert_eq!(load.next(line("Version: 1")), Command::ReadLine);
    assert_eq!(load.next(Event::EndOfInput), Command::Open("http://mirror/universe".to_string()));
    assert_eq!(load.next(Event::Done), Command::ReadLine);
    assert_eq!(load.next(line("")), Command::ReadLine);
    assert_eq!(load.next(line("Package: whole")), Command::ReadLine);
    assert_eq!(
        load.next(line("")),
        Command::InsertPackage(package("whole", "", "universe", ""))
    );
}

#[test]
fn load_of_the_file_list_alone_is_one_transaction() {
    let (mut load, first) = Ingestion::contents_only(config(&["main"]));
    assert_eq!(first, Command::Begin(Table::Contents));
    assert_eq!(load.stage(), Stage::Opening(Table::Contents));
    assert_eq!(load.next(Event::Done), Command::Open("http://mirror/contents".to_string()));
    assert_eq!(load.next(Event::Done), Command::ReadLine);
    assert_eq!(load.next(line("bin/x p")), Command::InsertFiles(vec![pair("bin/x", "p")]));
    assert_eq!(load.next(Event::Done), Command::ReadLine);
    assert_eq!(load.next(Event::EndOfInput), Command::Commit);
    assert_eq!(load.next(Event::Done), Command::Finish);
    assert_eq!(load.stage(), Stage::Finished);
}

#[test]
fn undisturbed_load_hands_out_what_the_feeds_hold() {
    let labels = ["main", "universe", "multiverse"];
    let texts = [
        "Package: a\nVersion: 1\n\nPackage: b\n\nPackage: cut off",
        "",
        "Version: 7\n\nPackage: c\nDescription: d\n\n\nPackage: e\n \n",
    ];
    let contents = "bin/a  a\nnothing\nbin/b b,c\n\nbin/e e,";
    let (mut load, mut command) = Ingestion::new(config(&labels));
    let mut lines: Vec<String> = Vec::new();
    let mut packages = Vec::new();
    let mut files = Vec::new();
    loop {
        let event = match command {
            Command::Open(url) => {
                let text = match labels.iter().position(|l| url == format!("http://mirror/{}", l)) {
                    Some(place) => texts[place],
                    None => contents,
                };
                lines = text.lines().rev().map(|l| l.to_string()).collect();
                Event::Done
            }
            Command::ReadLine => match lines.pop() {
                Some(line) => Event::Line(line),
                None => Event::EndOfInput,
            },
            Command::InsertPackage(package) => {
                packages.push(package);
                Event::Done
            }
            Command::InsertFiles(list) => {
                files.extend(list);
                Event::Done
            }
            Command::Abort(failure) => panic!("load gave up: {:?}", failure),
            Command::Finish => break,
            Command::CreateTable(_) | Command::Begin(_) | Command::Commit => Event::Done,
        };
        command = load.next(event);
    }
    let mut expected = Vec::new();
    for (label, text) in labels.iter().zip(texts.iter()) {
        expected.extend(parse_packages(label, text));
    }
    assert_eq!(packages, expected);
    assert_eq!(packages.len(), 4);
    assert_eq!(files, parse_contents(contents));
    assert_eq!(files.len(), 5);
}
