//! The load of the store, as a machine that decides and a driver that acts.
//!
//! The machine issues one [`Command`] at a time. The driver carries the
//! command out against the network and the store and reports what happened
//! as an [`Event`]; the machine answers with the next command. The machine
//! never touches the outside world, and the driver never decides.

use crate::config::{source_views, Config, ConfigView, Source, SourceView};
use crate::contents::{pairs_of, parse_contents_line};
use crate::package::{file_views, Package, PackageFile, PackageFileView, PackageView};
use crate::stanza::{fresh, step, StanzaParser, ReaderState};
use vstd::prelude::*;

verus! {

/// One of the two relations of the store.
#[derive(Clone, Copy, Debug, PartialEq, Eq)]
pub enum Table {
    Packages,
    Contents,
}

/// Why a load was given up.
#[derive(Clone, Copy, Debug, PartialEq, Eq)]
pub enum Failure {
    /// A relation could not be created: the store holds it already.
    Schema,
    /// A feed could not be opened.
    Fetch,
    /// A feed broke off or did not decode.
    Decode,
    /// The store refused a transaction, a row or a commit.
    Write,
}

/// What the machine waits for.
#[derive(Clone, Copy, Debug, PartialEq, Eq)]
pub enum Stage {
    /// The creation of a relation.
    Schema(Table),
    /// The opening of the transaction that fills a relation.
    Opening(Table),
    /// The opening of a feed, by its place in the order of the load.
    Fetching(Table, usize),
    /// The next line of the open feed.
    Reading(Table, usize),
    /// The writing of the rows just handed out.
    Writing(Table, usize),
    /// The commit of the transaction that fills a relation.
    Committing(Table),
    /// Nothing: both relations are filled and committed.
    Finished,
    /// Nothing: the load was given up.
    Failed(Failure),
}

/// What the driver is asked to do next.
#[derive(Clone, Debug, PartialEq, Eq)]
pub enum Command {
    /// Create the relation.
    CreateTable(Table),
    /// Open a transaction and prepare the insertion into the relation.
    Begin(Table),
    /// Open the feed at this address as a stream of decompressed lines.
    Open(String),
    /// Hand over the next line of the open feed.
    ReadLine,
    /// Insert this package in the open transaction.
    InsertPackage(Package),
    /// Insert these files, in order, in the open transaction.
    InsertFiles(Vec<PackageFile>),
    /// Commit the open transaction.
    Commit,
    /// Drop the open transaction, if there is one, without committing it, and
    /// report the failure.
    Abort(Failure),
    /// Stop: the load is complete.
    Finish,
}

/// What the driver reports back.
#[derive(Clone, Debug, PartialEq, Eq)]
pub enum Event {
    /// The command was carried out.
    Done,
    /// The feed gave this line.
    Line(String),
    /// The feed has no more lines.
    EndOfInput,
    /// The command could not be carried out.
    Failed,
}

/// Mathematical model of a [`Command`].
pub enum CommandView {
    CreateTable(Table),
    Begin(Table),
    Open(Seq<char>),
    ReadLine,
    InsertPackage(PackageView),
    InsertFiles(Seq<PackageFileView>),
    Commit,
    Abort(Failure),
    Finish,
}

/// Mathematical model of an [`Event`].
pub enum EventView {
    Done,
    Line(Seq<char>),
    EndOfInput,
    Failed,
}

impl View for Command {
    type V = CommandView;

    open spec fn view(&self) -> CommandView {
        match self {
            Command::CreateTable(table) => CommandView::CreateTable(*table),
            Command::Begin(table) => CommandView::Begin(*table),
            Command::Open(url) => CommandView::Open(url@),
            Command::ReadLine => CommandView::ReadLine,
            Command::InsertPackage(package) => CommandView::InsertPackage(package@),
            Command::InsertFiles(files) => CommandView::InsertFiles(file_views(files@)),
            Command::Commit => CommandView::Commit,
            Command::Abort(failure) => CommandView::Abort(*failure),
            Command::Finish => CommandView::Finish,
        }
    }
}

impl View for Event {
    type V = EventView;

    open spec fn view(&self) -> EventView {
        match self {
            Event::Done => EventView::Done,
            Event::Line(line) => EventView::Line(line@),
            Event::EndOfInput => EventView::EndOfInput,
            Event::Failed => EventView::Failed,
        }
    }
}

/// The state of a load: the feeds it reads, what it waits for, and the
/// reader of the package feed that is open.
pub struct LoadState {
    pub sources: Seq<SourceView>,
    pub contents_url: Seq<char>,
    pub stage: Stage,
    pub reader: ReaderState,
}

/// The state in which a load starts: it waits for the first relation to be
/// created.
pub open spec fn initial(config: ConfigView) -> LoadState {
    LoadState {
        sources: config.package_sources,
        contents_url: config.contents_url,
        stage: Stage::Schema(Table::Packages),
        reader: fresh(Seq::empty()),
    }
}

/// The failure that a stage ends in when its command cannot be carried out.
pub open spec fn failure_of(stage: Stage) -> Failure {
    match stage {
        Stage::Schema(_) => Failure::Schema,
        Stage::Fetching(_, _) => Failure::Fetch,
        Stage::Reading(_, _) => Failure::Decode,
        Stage::Failed(failure) => failure,
        _ => Failure::Write,
    }
}

/// The state and the command with which a load gives up in `state`.
pub open spec fn give_up(state: LoadState) -> (LoadState, CommandView) {
    let failure = failure_of(state.stage);
    (LoadState { stage: Stage::Failed(failure), ..state }, CommandView::Abort(failure))
}

/// The state and the command with which a load turns to the package feed at
/// place `index`, or to the commit if there is no such feed.
pub open spec fn turn_to(state: LoadState, index: int) -> (LoadState, CommandView) {
    if 0 <= index < state.sources.len() && index <= usize::MAX {
        (
            LoadState {
                stage: Stage::Fetching(Table::Packages, index as usize),
                reader: fresh(state.sources[index].label),
                ..state
            },
            CommandView::Open(state.sources[index].url),
        )
    } else {
        (LoadState { stage: Stage::Committing(Table::Packages), ..state }, CommandView::Commit)
    }
}

/// One turn of the load: the state after `event`, and the command that
/// answers it.
///
/// The relations are created first, each on its own. Then each relation is
/// filled inside one transaction: the package feeds one after the other, in
/// their order, then the file list. A transaction is committed when its last
/// feed has ended. An event that reports a failure, or that the command in
/// progress cannot have, ends the load: nothing is committed after it.
pub open spec fn advance(state: LoadState, event: EventView) -> (LoadState, CommandView) {
    match (state.stage, event) {
        (Stage::Finished, _) => (state, CommandView::Finish),
        (Stage::Failed(failure), _) => (state, CommandView::Abort(failure)),
        (Stage::Schema(Table::Packages), EventView::Done) => (
            LoadState { stage: Stage::Schema(Table::Contents), ..state },
            CommandView::CreateTable(Table::Contents),
        ),
        (Stage::Schema(Table::Contents), EventView::Done) => (
            LoadState { stage: Stage::Opening(Table::Packages), ..state },
            CommandView::Begin(Table::Packages),
        ),
        (Stage::Opening(Table::Packages), EventView::Done) => turn_to(state, 0),
        (Stage::Opening(Table::Contents), EventView::Done) => (
            LoadState { stage: Stage::Fetching(Table::Contents, 0), ..state },
            CommandView::Open(state.contents_url),
        ),
        (Stage::Fetching(table, index), EventView::Done) => (
            LoadState { stage: Stage::Reading(table, index), ..state },
            CommandView::ReadLine,
        ),
        (Stage::Reading(Table::Packages, index), EventView::Line(line)) => {
            let (reader, out) = step(state.reader, line);
            match out {
                Some(record) => (
                    LoadState { stage: Stage::Writing(Table::Packages, index), reader, ..state },
                    CommandView::InsertPackage(record),
                ),
                None => (LoadState { reader, ..state }, CommandView::ReadLine),
            }
        },
        (Stage::Reading(Table::Contents, index), EventView::Line(line)) => {
            let pairs = pairs_of(line);
            if pairs.len() > 0 {
                (
                    LoadState { stage: Stage::Writing(Table::Contents, index), ..state },
                    CommandView::InsertFiles(pairs),
                )
            } else {
                (state, CommandView::ReadLine)
            }
        },
        (Stage::Reading(Table::Packages, index), EventView::EndOfInput) => turn_to(
            state,
            index + 1,
        ),
        (Stage::Reading(Table::Contents, _), EventView::EndOfInput) => (
            LoadState { stage: Stage::Committing(Table::Contents), ..state },
            CommandView::Commit,
        ),
        (Stage::Writing(table, index), EventView::Done) => (
            LoadState { stage: Stage::Reading(table, index), ..state },
            CommandView::ReadLine,
        ),
        (Stage::Committing(Table::Packages), EventView::Done) => (
            LoadState { stage: Stage::Opening(Table::Contents), ..state },
            CommandView::Begin(Table::Contents),
        ),
        (Stage::Committing(Table::Contents), EventView::Done) => (
            LoadState { stage: Stage::Finished, ..state },
            CommandView::Finish,
        ),
        _ => give_up(state),
    }
}

/// The machine that decides how a load goes on.
pub struct Ingestion {
    sources: Vec<Source>,
    contents_url: String,
    stage: Stage,
    reader: StanzaParser,
}

impl View for Ingestion {
    type V = LoadState;

    closed spec fn view(&self) -> LoadState {
        LoadState {
            sources: source_views(self.sources@),
            contents_url: self.contents_url@,
            stage: self.stage,
            reader: self.reader@,
        }
    }
}

impl Ingestion {
    /// A load of the feeds of `config`, with its first command: to create the
    /// relation of packages.
    pub fn new(config: Config) -> (start: (Ingestion, Command))
        ensures
            start.0@ == initial(config@),
            start.1@ == CommandView::CreateTable(Table::Packages),
    {
        let load = Ingestion {
            sources: config.package_sources,
            contents_url: config.contents_url,
            stage: Stage::Schema(Table::Packages),
            reader: StanzaParser::new(String::new()),
        };
        (load, Command::CreateTable(Table::Packages))
    }

    /// A load of the file list alone, into a store that has its relations,
    /// with its first command: to open the transaction.
    pub fn contents_only(config: Config) -> (start: (Ingestion, Command))
        ensures
            start.0@ == (LoadState { stage: Stage::Opening(Table::Contents), ..initial(config@) }),
            start.1@ == CommandView::Begin(Table::Contents),
    {
        let load = Ingestion {
            sources: config.package_sources,
            contents_url: config.contents_url,
            stage: Stage::Opening(Table::Contents),
            reader: StanzaParser::new(String::new()),
        };
        (load, Command::Begin(Table::Contents))
    }

    /// What the load waits for.
    pub fn stage(&self) -> (stage: Stage)
        ensures
            stage == self@.stage,
    {
        self.stage
    }

    /// Gives the load up at the stage it is in.
    fn fail(&mut self) -> (command: Command)
        ensures
            (final(self)@, command@) == give_up(old(self)@),
    {
        let failure = match self.stage {
            Stage::Schema(_) => Failure::Schema,
            Stage::Fetching(_, _) => Failure::Fetch,
            Stage::Reading(_, _) => Failure::Decode,
            Stage::Failed(failure) => failure,
            _ => Failure::Write,
        };
        self.stage = Stage::Failed(failure);
        Command::Abort(failure)
    }

    /// Turns to the package feed at place `index`, or to the commit if there
    /// is no such feed.
    fn open_source(&mut self, index: usize) -> (command: Command)
        ensures
            (final(self)@, command@) == turn_to(old(self)@, index as int),
    {
        if index < self.sources.len() {
            self.reader = StanzaParser::new(self.sources[index].label.clone());
            self.stage = Stage::Fetching(Table::Packages, index);
            Command::Open(self.sources[index].url.clone())
        } else {
            self.stage = Stage::Committing(Table::Packages);
            Command::Commit
        }
    }

    /// Takes the driver's report on the last command and returns the next
    /// command.
    pub fn next(&mut self, event: Event) -> (command: Command)
        ensures
            (final(self)@, command@) == advance(old(self)@, event@),
    {
        match (self.stage, event) {
            (Stage::Finished, _) => Command::Finish,
            (Stage::Failed(failure), _) => Command::Abort(failure),
            (Stage::Schema(Table::Packages), Event::Done) => {
                self.stage = Stage::Schema(Table::Contents);
                Command::CreateTable(Table::Contents)
            },
            (Stage::Schema(Table::Contents), Event::Done) => {
                self.stage = Stage::Opening(Table::Packages);
                Command::Begin(Table::Packages)
            },
            (Stage::Opening(Table::Packages), Event::Done) => self.open_source(0),
            (Stage::Opening(Table::Contents), Event::Done) => {
                self.stage = Stage::Fetching(Table::Contents, 0);
                Command::Open(self.contents_url.clone())
            },
            (Stage::Fetching(table, index), Event::Done) => {
                self.stage = Stage::Reading(table, index);
                Command::ReadLine
            },
            (Stage::Reading(Table::Packages, index), Event::Line(line)) => {
                match self.reader.feed(line.as_str()) {
                    Some(record) => {
                        self.stage = Stage::Writing(Table::Packages, index);
                        Command::InsertPackage(record)
                    },
                    None => Command::ReadLine,
                }
            },
            (Stage::Reading(Table::Contents, index), Event::Line(line)) => {
                let pairs = parse_contents_line(line.as_str());
                if pairs.len() > 0 {
                    self.stage = Stage::Writing(Table::Contents, index);
                    Command::InsertFiles(pairs)
                } else {
                    Command::ReadLine
                }
            },
            (Stage::Reading(Table::Packages, index), Event::EndOfInput) => {
                if index < usize::MAX {
                    self.open_source(index + 1)
                } else {
                    self.stage = Stage::Committing(Table::Packages);
                    Command::Commit
                }
            },
            (Stage::Reading(Table::Contents, _), Event::EndOfInput) => {
                self.stage = Stage::Committing(Table::Contents);
                Command::Commit
            },
            (Stage::Writing(table, index), Event::Done) => {
                self.stage = Stage::Reading(table, index);
                Command::ReadLine
            },
            (Stage::Committing(Table::Packages), Event::Done) => {
                self.stage = Stage::Opening(Table::Contents);
                Command::Begin(Table::Contents)
            },
            (Stage::Committing(Table::Contents), Event::Done) => {
                self.stage = Stage::Finished;
                Command::Finish
            },
            _ => self.fail(),
        }
    }
}

} // verus!
