//! What a load needs to know: where the store lives and which feeds to read.

use vstd::prelude::*;

verus! {

/// One feed of package stanzas: the archive component it belongs to and
/// where it is fetched from.
#[derive(Clone, Debug, PartialEq, Eq)]
pub struct Source {
    pub label: String,
    pub url: String,
}

/// Mathematical model of a [`Source`].
pub struct SourceView {
    pub label: Seq<char>,
    pub url: Seq<char>,
}

impl View for Source {
    type V = SourceView;

    open spec fn view(&self) -> SourceView {
        SourceView { label: self.label@, url: self.url@ }
    }
}

/// The models of a list of feeds, in order.
pub open spec fn source_views(list: Seq<Source>) -> Seq<SourceView> {
    list.map_values(|s: Source| s@)
}

/// The configuration of the service, made once at startup and handed to the
/// load and to the search.
#[derive(Clone, Debug, PartialEq, Eq)]
pub struct Config {
    /// File that holds the store.
    pub database_file: String,
    /// The package feeds, in the order in which they are loaded.
    pub package_sources: Vec<Source>,
    /// The one feed of file names.
    pub contents_url: String,
}

/// Mathematical model of a [`Config`].
pub struct ConfigView {
    pub database_file: Seq<char>,
    pub package_sources: Seq<SourceView>,
    pub contents_url: Seq<char>,
}

impl View for Config {
    type V = ConfigView;

    open spec fn view(&self) -> ConfigView {
        ConfigView {
            database_file: self.database_file@,
            package_sources: source_views(self.package_sources@),
            contents_url: self.contents_url@,
        }
    }
}

/// The feeds of the `bionic` release for `amd64`: its four components, then
/// its file list.
pub open spec fn bionic_feeds(database_file: Seq<char>) -> ConfigView {
    ConfigView {
        database_file,
        package_sources: seq![
            SourceView {
                label: "main"@,
                url: "http://archive.ubuntu.com/ubuntu/dists/bionic/main/binary-amd64/Packages.gz"@,
            },
            SourceView {
                label: "universe"@,
                url: "http://archive.ubuntu.com/ubuntu/dists/bionic/universe/binary-amd64/Packages.gz"@,
            },
            SourceView {
                label: "multiverse"@,
                url: "http://archive.ubuntu.com/ubuntu/dists/bionic/multiverse/binary-amd64/Packages.gz"@,
            },
            SourceView {
                label: "restricted"@,
                url: "http://archive.ubuntu.com/ubuntu/dists/bionic/restricted/binary-amd64/Packages.gz"@,
            },
        ],
        contents_url: "http://archive.ubuntu.com/ubuntu/dists/bionic/Contents-amd64.gz"@,
    }
}

/// Name of the store's file where none is configured.
pub open spec fn default_database_file() -> Seq<char> {
    "database.sqlite3"@
}

impl Source {
    /// The feed of component `label` at `url`.
    pub fn new(label: &str, url: &str) -> (source: Source)
        ensures
            source@ == (SourceView { label: label@, url: url@ }),
    {
        Source { label: label.to_owned(), url: url.to_owned() }
    }
}

impl Config {
    /// The configuration that loads the `bionic` release into
    /// `database_file`.
    pub fn bionic(database_file: String) -> (config: Config)
        ensures
            config@ == bionic_feeds(database_file@),
    {
        let mut sources: Vec<Source> = Vec::new();
        sources.push(
            Source::new(
                "main",
                "http://archive.ubuntu.com/ubuntu/dists/bionic/main/binary-amd64/Packages.gz",
            ),
        );
        sources.push(
            Source::new(
                "universe",
                "http://archive.ubuntu.com/ubuntu/dists/bionic/universe/binary-amd64/Packages.gz",
            ),
        );
        sources.push(
            Source::new(
                "multiverse",
                "http://archive.ubuntu.com/ubuntu/dists/bionic/multiverse/binary-amd64/Packages.gz",
            ),
        );
        sources.push(
            Source::new(
                "restricted",
                "http://archive.ubuntu.com/ubuntu/dists/bionic/restricted/binary-amd64/Packages.gz",
            ),
        );
        let config = Config {
            database_file,
            package_sources: sources,
            contents_url: "http://archive.ubuntu.com/ubuntu/dists/bionic/Contents-amd64.gz".to_owned(),
        };
        assert(config@.package_sources =~= bionic_feeds(database_file@).package_sources);
        config
    }

    /// The name of the store's file: the configured one, or
    /// `database.sqlite3` where none is configured.
    pub fn database_file_or_default(configured: Option<String>) -> (name: String)
        ensures
            name@ == match configured {
                Some(given) => given@,
                None => default_database_file(),
            },
    {
        match configured {
            Some(given) => given,
            None => "database.sqlite3".to_owned(),
        }
    }
}

} // verus!
