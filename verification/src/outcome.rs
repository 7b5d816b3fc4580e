//! What a load writes when nothing fails: the rows that the machine hands
//! out to a driver that carries out every command, for given feeds.

use crate::config::SourceView;
use crate::contents::{all_pairs, pairs_of};
use crate::ingest::{advance, turn_to, CommandView, EventView, LoadState, Stage, Table};
use crate::package::{PackageFileView, PackageView};
use crate::runs::{
    commands, lemma_commands_concat, lemma_load_concat, lemma_one_event, load_after,
};
use crate::stanza::{fresh, records, state_after, step, ReaderState};
use vstd::prelude::*;

verus! {

/// The packages that the commands hand out, in order.
pub open spec fn packages_written(issued: Seq<CommandView>) -> Seq<PackageView>
    decreases issued.len(),
{
    if issued.len() == 0 {
        Seq::empty()
    } else {
        match issued.last() {
            CommandView::InsertPackage(record) => packages_written(issued.drop_last()).push(record),
            _ => packages_written(issued.drop_last()),
        }
    }
}

/// The files that the commands hand out, in order.
pub open spec fn files_written(issued: Seq<CommandView>) -> Seq<PackageFileView>
    decreases issued.len(),
{
    if issued.len() == 0 {
        Seq::empty()
    } else {
        match issued.last() {
            CommandView::InsertFiles(files) => files_written(issued.drop_last()) + files,
            _ => files_written(issued.drop_last()),
        }
    }
}

/// Whether none of the commands gives the load up.
pub open spec fn undisturbed(issued: Seq<CommandView>) -> bool {
    forall|i: int| 0 <= i < issued.len() ==> !(#[trigger] issued[i] is Abort)
}

/// What a driver reports while the load reads a package feed of these
/// lines, when nothing fails: each line, `Done` for the package that a line
/// hands out, and the end of the feed.
pub open spec fn package_feed_events(reader: ReaderState, lines: Seq<Seq<char>>) -> Seq<EventView>
    decreases lines.len(),
{
    if lines.len() == 0 {
        seq![EventView::EndOfInput]
    } else {
        let (next, out) = step(reader, lines[0]);
        let rest = package_feed_events(next, lines.drop_first());
        if out is Some {
            seq![EventView::Line(lines[0]), EventView::Done] + rest
        } else {
            seq![EventView::Line(lines[0])] + rest
        }
    }
}

/// The load as it is when its reader has taken all of `lines`.
pub open spec fn at_end_of_feed(state: LoadState, lines: Seq<Seq<char>>) -> LoadState {
    LoadState { reader: state_after(state.reader, lines), ..state }
}

/// What a driver reports while the load reads a file list of these lines,
/// when nothing fails: each line, `Done` for the files that a line hands
/// out, and the end of the feed.
pub open spec fn contents_feed_events(lines: Seq<Seq<char>>) -> Seq<EventView>
    decreases lines.len(),
{
    if lines.len() == 0 {
        seq![EventView::EndOfInput]
    } else {
        let rest = contents_feed_events(lines.drop_first());
        if pairs_of(lines[0]).len() > 0 {
            seq![EventView::Line(lines[0]), EventView::Done] + rest
        } else {
            seq![EventView::Line(lines[0])] + rest
        }
    }
}

/// What a driver reports from the opening of the package feed at place
/// `from` to the end of the last package feed, when nothing fails and the
/// feeds hold the lines `feeds`.
pub open spec fn package_events(
    sources: Seq<SourceView>,
    feeds: Seq<Seq<Seq<char>>>,
    from: int,
) -> Seq<EventView>
    decreases sources.len() - from,
{
    if 0 <= from < sources.len() {
        seq![EventView::Done] + package_feed_events(fresh(sources[from].label), feeds[from])
            + package_events(sources, feeds, from + 1)
    } else {
        Seq::empty()
    }
}

/// The records of the package feeds from place `from` on, each feed read
/// for its own component, one feed after the other.
pub open spec fn feed_records(
    sources: Seq<SourceView>,
    feeds: Seq<Seq<Seq<char>>>,
    from: int,
) -> Seq<PackageView>
    decreases sources.len() - from,
{
    if 0 <= from < sources.len() {
        records(fresh(sources[from].label), feeds[from]) + feed_records(sources, feeds, from + 1)
    } else {
        Seq::empty()
    }
}

/// What a driver reports over the first transaction, when nothing fails:
/// the two relations and the transaction are there, and every package feed
/// opens and gives its lines.
pub open spec fn first_transaction_events(
    sources: Seq<SourceView>,
    feeds: Seq<Seq<Seq<char>>>,
) -> Seq<EventView> {
    seq![EventView::Done, EventView::Done, EventView::Done] + package_events(sources, feeds, 0)
}

/// What a driver reports over the second transaction, when nothing fails:
/// the first commit succeeds, the transaction is there, the file list opens
/// and gives its lines, and the second commit succeeds.
pub open spec fn second_transaction_events(contents: Seq<Seq<char>>) -> Seq<EventView> {
    seq![EventView::Done, EventView::Done, EventView::Done] + contents_feed_events(contents)
        + seq![EventView::Done]
}

/// What a driver reports over a whole load, when nothing fails.
pub open spec fn complete_events(
    sources: Seq<SourceView>,
    feeds: Seq<Seq<Seq<char>>>,
    contents: Seq<Seq<char>>,
) -> Seq<EventView> {
    first_transaction_events(sources, feeds) + second_transaction_events(contents)
}

/// The packages of two runs of commands are the packages of the one and then
/// of the other, and so for the files.
pub proof fn lemma_written_concat(first: Seq<CommandView>, second: Seq<CommandView>)
    ensures
        packages_written(first + second) == packages_written(first) + packages_written(second),
        files_written(first + second) == files_written(first) + files_written(second),
        undisturbed(first + second) == (undisturbed(first) && undisturbed(second)),
    decreases second.len(),
{
    if second.len() == 0 {
        assert(first + second =~= first);
        assert(packages_written(first) + packages_written(second) =~= packages_written(first));
        assert(files_written(first) + files_written(second) =~= files_written(first));
    } else {
        let init = second.drop_last();
        assert((first + second).drop_last() =~= first + init);
        assert((first + second).last() == second.last());
        lemma_written_concat(first, init);
        match second.last() {
            CommandView::InsertPackage(record) => {
                assert((packages_written(first) + packages_written(init)).push(record)
                    =~= packages_written(first) + packages_written(init).push(record));
            },
            CommandView::InsertFiles(files) => {
                assert((files_written(first) + files_written(init)) + files =~= files_written(first)
                    + (files_written(init) + files));
            },
            _ => {},
        }
    }
    if undisturbed(first + second) {
        assert forall|i: int| 0 <= i < first.len() implies !(#[trigger] first[i] is Abort) by {
            assert(first[i] == (first + second)[i]);
        }
        assert forall|i: int| 0 <= i < second.len() implies !(#[trigger] second[i] is Abort) by {
            assert(second[i] == (first + second)[first.len() + i]);
        }
    }
    if undisturbed(first) && undisturbed(second) {
        assert forall|i: int| 0 <= i < (first + second).len() implies !(#[trigger] (first
            + second)[i] is Abort) by {
            if i < first.len() {
                assert((first + second)[i] == first[i]);
            } else {
                assert((first + second)[i] == second[i - first.len()]);
            }
        }
    }
}

/// Two events are two turns.
proof fn lemma_two_events(state: LoadState, first: EventView, second: EventView)
    ensures
        load_after(state, seq![first, second]) == advance(advance(state, first).0, second).0,
        commands(state, seq![first, second]) == seq![
            advance(state, first).1,
            advance(advance(state, first).0, second).1,
        ],
{
    assert(seq![first, second] =~= seq![first] + seq![second]);
    lemma_one_event(state, first);
    lemma_one_event(advance(state, first).0, second);
    lemma_load_concat(state, seq![first], seq![second]);
    lemma_commands_concat(state, seq![first], seq![second]);
    assert(seq![advance(state, first).1] + seq![advance(advance(state, first).0, second).1]
        =~= seq![advance(state, first).1, advance(advance(state, first).0, second).1]);
}

/// What one command hands out.
proof fn lemma_written_by_one(command: CommandView)
    ensures
        packages_written(seq![command]) == match command {
            CommandView::InsertPackage(record) => seq![record],
            _ => Seq::empty(),
        },
        files_written(seq![command]) == match command {
            CommandView::InsertFiles(files) => files,
            _ => Seq::empty(),
        },
        undisturbed(seq![command]) == !(command is Abort),
{
    let issued = seq![command];
    assert(issued.drop_last() =~= Seq::<CommandView>::empty());
    assert(issued.last() == command);
    assert(packages_written(issued.drop_last()) =~= Seq::<PackageView>::empty());
    assert(files_written(issued.drop_last()) =~= Seq::<PackageFileView>::empty());
    match command {
        CommandView::InsertPackage(record) => {
            assert(Seq::<PackageView>::empty().push(record) =~= seq![record]);
        },
        CommandView::InsertFiles(files) => {
            assert(Seq::<PackageFileView>::empty() + files =~= files);
        },
        _ => {},
    }
    if !(command is Abort) {
        assert forall|i: int| 0 <= i < issued.len() implies !(#[trigger] issued[i] is Abort) by {}
    } else {
        assert(issued[0] is Abort);
    }
}

/// While it reads a package feed that does not fail, the load hands out
/// exactly the records of the lines of the feed, in order, and nothing else;
/// at the end of the feed it turns to the next feed, or to the commit after
/// the last.
pub proof fn lemma_package_feed(state: LoadState, index: usize, lines: Seq<Seq<char>>)
    requires
        state.stage == Stage::Reading(Table::Packages, index),
    ensures
        load_after(state, package_feed_events(state.reader, lines)) == turn_to(
            at_end_of_feed(state, lines),
            index + 1,
        ).0,
        commands(state, package_feed_events(state.reader, lines)).len() > 0,
        commands(state, package_feed_events(state.reader, lines)).last() == turn_to(
            at_end_of_feed(state, lines),
            index + 1,
        ).1,
        packages_written(commands(state, package_feed_events(state.reader, lines))) == records(
            state.reader,
            lines,
        ),
        files_written(commands(state, package_feed_events(state.reader, lines))) == Seq::<
            PackageFileView,
        >::empty(),
        undisturbed(commands(state, package_feed_events(state.reader, lines))),
    decreases lines.len(),
{
    let events = package_feed_events(state.reader, lines);
    if lines.len() == 0 {
        lemma_one_event(state, EventView::EndOfInput);
        lemma_written_by_one(advance(state, EventView::EndOfInput).1);
        assert(at_end_of_feed(state, lines) == state);
    } else {
        let line = lines[0];
        let later = lines.drop_first();
        let (reader, out) = step(state.reader, line);
        let taken = advance(state, EventView::Line(line));
        match out {
            Some(record) => {
                let head = seq![EventView::Line(line), EventView::Done];
                let ready = advance(taken.0, EventView::Done).0;
                let rest = package_feed_events(reader, later);
                lemma_two_events(state, EventView::Line(line), EventView::Done);
                lemma_package_feed(ready, index, later);
                lemma_load_concat(state, head, rest);
                lemma_commands_concat(state, head, rest);
                lemma_written_concat(commands(state, head), commands(ready, rest));
                lemma_written_by_one(CommandView::InsertPackage(record));
                lemma_written_by_one(CommandView::ReadLine);
                assert(commands(state, head) =~= seq![CommandView::InsertPackage(record)] + seq![
                    CommandView::ReadLine,
                ]);
                lemma_written_concat(
                    seq![CommandView::InsertPackage(record)],
                    seq![CommandView::ReadLine],
                );
                assert(seq![record] + Seq::<PackageView>::empty() =~= seq![record]);
                assert(Seq::<PackageFileView>::empty() + Seq::<PackageFileView>::empty()
                    =~= Seq::<PackageFileView>::empty());
            },
            None => {
                let head = seq![EventView::Line(line)];
                let ready = taken.0;
                let rest = package_feed_events(reader, later);
                lemma_one_event(state, EventView::Line(line));
                lemma_package_feed(ready, index, later);
                lemma_load_concat(state, head, rest);
                lemma_commands_concat(state, head, rest);
                lemma_written_concat(commands(state, head), commands(ready, rest));
                lemma_written_by_one(CommandView::ReadLine);
                assert(Seq::<PackageView>::empty() + records(reader, later) =~= records(
                    reader,
                    later,
                ));
                assert(Seq::<PackageFileView>::empty() + Seq::<PackageFileView>::empty()
                    =~= Seq::<PackageFileView>::empty());
            },
        }
    }
}

/// While it reads a file list that does not fail, the load hands out
/// exactly the pairs of the lines of the feed, in order, and nothing else; at
/// the end of the feed it asks for the commit.
pub proof fn lemma_contents_feed(state: LoadState, index: usize, lines: Seq<Seq<char>>)
    requires
        state.stage == Stage::Reading(Table::Contents, index),
    ensures
        load_after(state, contents_feed_events(lines)) == (LoadState {
            stage: Stage::Committing(Table::Contents),
            ..state
        }),
        commands(state, contents_feed_events(lines)).len() > 0,
        commands(state, contents_feed_events(lines)).last() == CommandView::Commit,
        files_written(commands(state, contents_feed_events(lines))) == all_pairs(lines),
        packages_written(commands(state, contents_feed_events(lines))) == Seq::<
            PackageView,
        >::empty(),
        undisturbed(commands(state, contents_feed_events(lines))),
    decreases lines.len(),
{
    if lines.len() == 0 {
        lemma_one_event(state, EventView::EndOfInput);
        lemma_written_by_one(CommandView::Commit);
    } else {
        let line = lines[0];
        let later = lines.drop_first();
        let pairs = pairs_of(line);
        let rest = contents_feed_events(later);
        lemma_contents_feed(state, index, later);
        if pairs.len() > 0 {
            let head = seq![EventView::Line(line), EventView::Done];
            lemma_two_events(state, EventView::Line(line), EventView::Done);
            assert(load_after(state, head) == state);
            lemma_load_concat(state, head, rest);
            lemma_commands_concat(state, head, rest);
            lemma_written_concat(commands(state, head), commands(state, rest));
            lemma_written_by_one(CommandView::InsertFiles(pairs));
            lemma_written_by_one(CommandView::ReadLine);
            assert(commands(state, head) =~= seq![CommandView::InsertFiles(pairs)] + seq![
                CommandView::ReadLine,
            ]);
            lemma_written_concat(seq![CommandView::InsertFiles(pairs)], seq![CommandView::ReadLine]);
            assert(pairs + Seq::<PackageFileView>::empty() =~= pairs);
            assert(Seq::<PackageView>::empty() + Seq::<PackageView>::empty() =~= Seq::<
                PackageView,
            >::empty());
        } else {
            let head = seq![EventView::Line(line)];
            lemma_one_event(state, EventView::Line(line));
            lemma_load_concat(state, head, rest);
            lemma_commands_concat(state, head, rest);
            lemma_written_concat(commands(state, head), commands(state, rest));
            lemma_written_by_one(CommandView::ReadLine);
            assert(pairs =~= Seq::<PackageFileView>::empty());
            assert(Seq::<PackageFileView>::empty() + all_pairs(later) =~= all_pairs(later));
            assert(pairs + all_pairs(later) =~= all_pairs(later));
            assert(Seq::<PackageView>::empty() + Seq::<PackageView>::empty() =~= Seq::<
                PackageView,
            >::empty());
        }
    }
}

/// From the opening of a package feed to the end of the last one, a load
/// that nothing disturbs hands out the records of each feed, read for the
/// component of the feed, one feed after the other, and then asks for the
/// commit.
pub proof fn lemma_package_feeds(state: LoadState, from: int, feeds: Seq<Seq<Seq<char>>>)
    requires
        0 <= from < state.sources.len() <= usize::MAX,
        feeds.len() == state.sources.len(),
        state.stage == Stage::Fetching(Table::Packages, from as usize),
        state.reader == fresh(state.sources[from].label),
    ensures
        load_after(state, package_events(state.sources, feeds, from)).stage == Stage::Committing(
            Table::Packages,
        ),
        load_after(state, package_events(state.sources, feeds, from)).sources == state.sources,
        load_after(state, package_events(state.sources, feeds, from)).contents_url
            == state.contents_url,
        commands(state, package_events(state.sources, feeds, from)).len() > 0,
        commands(state, package_events(state.sources, feeds, from)).last() == CommandView::Commit,
        packages_written(commands(state, package_events(state.sources, feeds, from)))
            == feed_records(state.sources, feeds, from),
        files_written(commands(state, package_events(state.sources, feeds, from))) == Seq::<
            PackageFileView,
        >::empty(),
        undisturbed(commands(state, package_events(state.sources, feeds, from))),
    decreases state.sources.len() - from,
{
    let sources = state.sources;
    let opened = seq![EventView::Done];
    let reading = advance(state, EventView::Done).0;
    let feed = package_feed_events(fresh(sources[from].label), feeds[from]);
    let others = package_events(sources, feeds, from + 1);
    let next = load_after(reading, feed);
    lemma_one_event(state, EventView::Done);
    lemma_written_by_one(CommandView::ReadLine);
    lemma_package_feed(reading, from as usize, feeds[from]);
    lemma_load_concat(state, opened, feed);
    lemma_commands_concat(state, opened, feed);
    lemma_written_concat(commands(state, opened), commands(reading, feed));
    assert(Seq::<PackageView>::empty() + records(fresh(sources[from].label), feeds[from])
        =~= records(fresh(sources[from].label), feeds[from]));
    assert(Seq::<PackageFileView>::empty() + Seq::<PackageFileView>::empty() =~= Seq::<
        PackageFileView,
    >::empty());
    if from + 1 < sources.len() {
        lemma_package_feeds(next, from + 1, feeds);
        lemma_load_concat(state, opened + feed, others);
        lemma_commands_concat(state, opened + feed, others);
        lemma_written_concat(commands(state, opened + feed), commands(next, others));
        assert(records(fresh(sources[from].label), feeds[from]) + Seq::<PackageView>::empty()
            =~= records(fresh(sources[from].label), feeds[from]));
    } else {
        assert(others =~= Seq::<EventView>::empty());
        assert(opened + feed + others =~= opened + feed);
        assert(feed_records(sources, feeds, from + 1) =~= Seq::<PackageView>::empty());
        assert(records(fresh(sources[from].label), feeds[from]) + Seq::<PackageView>::empty()
            =~= records(fresh(sources[from].label), feeds[from]));
    }
}

/// Three events are three turns.
proof fn lemma_three_events(state: LoadState, first: EventView, second: EventView, third: EventView)
    ensures
        load_after(state, seq![first, second, third]) == advance(
            advance(advance(state, first).0, second).0,
            third,
        ).0,
        commands(state, seq![first, second, third]) == seq![
            advance(state, first).1,
            advance(advance(state, first).0, second).1,
            advance(advance(advance(state, first).0, second).0, third).1,
        ],
{
    let two = advance(advance(state, first).0, second).0;
    assert(seq![first, second, third] =~= seq![first, second] + seq![third]);
    lemma_two_events(state, first, second);
    lemma_one_event(two, third);
    lemma_load_concat(state, seq![first, second], seq![third]);
    lemma_commands_concat(state, seq![first, second], seq![third]);
    assert(seq![advance(state, first).1, advance(advance(state, first).0, second).1] + seq![
        advance(two, third).1,
    ] =~= seq![
        advance(state, first).1,
        advance(advance(state, first).0, second).1,
        advance(two, third).1,
    ]);
}

/// What three commands hand out when none of them holds a row.
proof fn lemma_written_by_none(first: CommandView, second: CommandView, third: CommandView)
    requires
        !(first is InsertPackage) && !(first is InsertFiles) && !(first is Abort),
        !(second is InsertPackage) && !(second is InsertFiles) && !(second is Abort),
        !(third is InsertPackage) && !(third is InsertFiles) && !(third is Abort),
    ensures
        packages_written(seq![first, second, third]) == Seq::<PackageView>::empty(),
        files_written(seq![first, second, third]) == Seq::<PackageFileView>::empty(),
        undisturbed(seq![first, second, third]),
{
    assert(seq![first, second, third] =~= seq![first] + seq![second] + seq![third]);
    lemma_written_by_one(first);
    lemma_written_by_one(second);
    lemma_written_by_one(third);
    lemma_written_concat(seq![first], seq![second]);
    lemma_written_concat(seq![first] + seq![second], seq![third]);
    assert(Seq::<PackageView>::empty() + Seq::<PackageView>::empty() =~= Seq::<
        PackageView,
    >::empty());
    assert(Seq::<PackageFileView>::empty() + Seq::<PackageFileView>::empty() =~= Seq::<
        PackageFileView,
    >::empty());
}

/// Over the first transaction a load that nothing disturbs hands out the
/// records of the package feeds and asks for the commit.
pub proof fn lemma_first_transaction(state: LoadState, feeds: Seq<Seq<Seq<char>>>)
    requires
        state.stage == Stage::Schema(Table::Packages),
        state.sources.len() <= usize::MAX,
        feeds.len() == state.sources.len(),
    ensures
        load_after(state, first_transaction_events(state.sources, feeds)).stage
            == Stage::Committing(Table::Packages),
        commands(state, first_transaction_events(state.sources, feeds)).last()
            == CommandView::Commit,
        undisturbed(commands(state, first_transaction_events(state.sources, feeds))),
        packages_written(commands(state, first_transaction_events(state.sources, feeds)))
            == feed_records(state.sources, feeds, 0),
        files_written(commands(state, first_transaction_events(state.sources, feeds))) == Seq::<
            PackageFileView,
        >::empty(),
{
    let done = EventView::Done;
    let sources = state.sources;
    let none_yet = Seq::<PackageView>::empty();
    let no_files = Seq::<PackageFileView>::empty();
    let a = seq![done, done, done];
    let after_a = load_after(state, a);
    let issued_a = commands(state, a);
    let b = package_events(sources, feeds, 0);
    let issued_b = commands(after_a, b);
    lemma_three_events(state, done, done, done);
    lemma_written_by_none(issued_a[0], issued_a[1], issued_a[2]);
    assert(issued_a =~= seq![issued_a[0], issued_a[1], issued_a[2]]);
    if sources.len() > 0 {
        lemma_package_feeds(after_a, 0, feeds);
    } else {
        assert(b =~= Seq::<EventView>::empty());
        assert(issued_b =~= Seq::<CommandView>::empty());
        assert(feed_records(sources, feeds, 0) =~= none_yet);
        assert(issued_a + issued_b =~= issued_a);
    }
    lemma_load_concat(state, a, b);
    lemma_commands_concat(state, a, b);
    lemma_written_concat(issued_a, issued_b);
    assert(none_yet + feed_records(sources, feeds, 0) =~= feed_records(sources, feeds, 0));
    assert(no_files + no_files =~= no_files);
}

/// Over the second transaction a load that nothing disturbs hands out the
/// pairs of the file list and ends complete.
pub proof fn lemma_second_transaction(state: LoadState, contents: Seq<Seq<char>>)
    requires
        state.stage == Stage::Committing(Table::Packages),
    ensures
        load_after(state, second_transaction_events(contents)).stage == Stage::Finished,
        commands(state, second_transaction_events(contents)).last() == CommandView::Finish,
        undisturbed(commands(state, second_transaction_events(contents))),
        packages_written(commands(state, second_transaction_events(contents))) == Seq::<
            PackageView,
        >::empty(),
        files_written(commands(state, second_transaction_events(contents))) == all_pairs(contents),
{
    let done = EventView::Done;
    let none_yet = Seq::<PackageView>::empty();
    let no_files = Seq::<PackageFileView>::empty();
    let c = seq![done, done, done];
    let after_c = load_after(state, c);
    let issued_c = commands(state, c);
    let d = contents_feed_events(contents);
    let after_d = load_after(after_c, d);
    let e = seq![done];
    lemma_three_events(state, done, done, done);
    lemma_written_by_none(issued_c[0], issued_c[1], issued_c[2]);
    assert(issued_c =~= seq![issued_c[0], issued_c[1], issued_c[2]]);
    lemma_contents_feed(after_c, 0, contents);
    lemma_load_concat(state, c, d);
    lemma_commands_concat(state, c, d);
    lemma_written_concat(issued_c, commands(after_c, d));
    assert(no_files + all_pairs(contents) =~= all_pairs(contents));
    assert(none_yet + none_yet =~= none_yet);
    lemma_one_event(after_d, done);
    lemma_written_by_one(CommandView::Finish);
    lemma_load_concat(state, c + d, e);
    lemma_commands_concat(state, c + d, e);
    lemma_written_concat(commands(state, c + d), commands(after_d, e));
    assert(all_pairs(contents) + no_files =~= all_pairs(contents));
}

/// A load that nothing disturbs writes what the feeds hold and ends
/// complete: over the whole load the machine hands out exactly the records
/// of the package feeds, each read for its component, in the order of the
/// feeds, and exactly the pairs of the file list; it gives nothing up and
/// its last command is `Finish`.
pub proof fn lemma_complete_load(
    state: LoadState,
    feeds: Seq<Seq<Seq<char>>>,
    contents: Seq<Seq<char>>,
)
    requires
        state.stage == Stage::Schema(Table::Packages),
        state.sources.len() <= usize::MAX,
        feeds.len() == state.sources.len(),
    ensures
        load_after(state, complete_events(state.sources, feeds, contents)).stage
            == Stage::Finished,
        commands(state, complete_events(state.sources, feeds, contents)).last()
            == CommandView::Finish,
        undisturbed(commands(state, complete_events(state.sources, feeds, contents))),
        packages_written(commands(state, complete_events(state.sources, feeds, contents)))
            == feed_records(state.sources, feeds, 0),
        files_written(commands(state, complete_events(state.sources, feeds, contents)))
            == all_pairs(contents),
{
    let first = first_transaction_events(state.sources, feeds);
    let second = second_transaction_events(contents);
    let between = load_after(state, first);
    lemma_first_transaction(state, feeds);
    lemma_second_transaction(between, contents);
    lemma_load_concat(state, first, second);
    lemma_commands_concat(state, first, second);
    lemma_written_concat(commands(state, first), commands(between, second));
    assert(feed_records(state.sources, feeds, 0) + Seq::<PackageView>::empty() =~= feed_records(
        state.sources,
        feeds,
        0,
    ));
    assert(Seq::<PackageFileView>::empty() + all_pairs(contents) =~= all_pairs(contents));
}

} // verus!
