//! Whole runs of a load: what holds of the commands that the machine issues,
//! whatever the driver reports to it.

use crate::ingest::{advance, CommandView, EventView, LoadState, Stage, Table};
use vstd::prelude::*;

verus! {

/// The state of a load that started in `state` and took `events`.
pub open spec fn load_after(state: LoadState, events: Seq<EventView>) -> LoadState
    decreases events.len(),
{
    if events.len() == 0 {
        state
    } else {
        advance(load_after(state, events.drop_last()), events.last()).0
    }
}

/// The commands with which a load that started in `state` answers `events`,
/// one for each event.
pub open spec fn commands(state: LoadState, events: Seq<EventView>) -> Seq<CommandView> {
    Seq::new(events.len(), |i: int| advance(load_after(state, events.take(i)), events[i]).1)
}

/// Whether a load in this stage has come to its end, one way or the other.
pub open spec fn is_over(stage: Stage) -> bool {
    stage is Finished || stage is Failed
}

/// Whether a command is one of the two that a load issues once it is over.
pub open spec fn is_halt(command: CommandView) -> bool {
    command is Abort || command is Finish
}

/// The addresses of the feeds that the commands open, in order.
pub open spec fn opened(issued: Seq<CommandView>) -> Seq<Seq<char>>
    decreases issued.len(),
{
    if issued.len() == 0 {
        Seq::empty()
    } else {
        match issued.last() {
            CommandView::Open(url) => opened(issued.drop_last()).push(url),
            _ => opened(issued.drop_last()),
        }
    }
}

/// How many transactions the commands open.
pub open spec fn begun(issued: Seq<CommandView>) -> int
    decreases issued.len(),
{
    if issued.len() == 0 {
        0
    } else if issued.last() is Begin {
        begun(issued.drop_last()) + 1
    } else {
        begun(issued.drop_last())
    }
}

/// How many commits the commands ask for.
pub open spec fn committed(issued: Seq<CommandView>) -> int
    decreases issued.len(),
{
    if issued.len() == 0 {
        0
    } else if issued.last() is Commit {
        committed(issued.drop_last()) + 1
    } else {
        committed(issued.drop_last())
    }
}

/// The addresses of all the feeds of a load, in the order in which it is to
/// read them: the package feeds, then the file list.
pub open spec fn feed_order(state: LoadState) -> Seq<Seq<char>> {
    Seq::new(state.sources.len(), |i: int| state.sources[i].url).push(state.contents_url)
}

/// How many feeds a load has turned to by the time it is in `stage`, of
/// `count` package feeds and the file list.
pub open spec fn feeds_begun(stage: Stage, count: int) -> int {
    match stage {
        Stage::Schema(_) => 0,
        Stage::Opening(Table::Packages) => 0,
        Stage::Fetching(Table::Packages, index) => index + 1,
        Stage::Reading(Table::Packages, index) => index + 1,
        Stage::Writing(Table::Packages, index) => index + 1,
        Stage::Committing(Table::Packages) => count,
        Stage::Opening(Table::Contents) => count,
        _ => count + 1,
    }
}

/// How many transactions a load has opened by the time it is in `stage`.
pub open spec fn transactions_begun(stage: Stage) -> int {
    match stage {
        Stage::Schema(_) => 0,
        Stage::Opening(Table::Packages) => 1,
        Stage::Fetching(Table::Packages, _) => 1,
        Stage::Reading(Table::Packages, _) => 1,
        Stage::Writing(Table::Packages, _) => 1,
        Stage::Committing(Table::Packages) => 1,
        _ => 2,
    }
}

/// How many commits a load has asked for by the time it is in `stage`.
pub open spec fn commits_asked(stage: Stage) -> int {
    match stage {
        Stage::Committing(Table::Packages) => 1,
        Stage::Opening(Table::Contents) => 1,
        Stage::Fetching(Table::Contents, _) => 1,
        Stage::Reading(Table::Contents, _) => 1,
        Stage::Writing(Table::Contents, _) => 1,
        Stage::Committing(Table::Contents) => 2,
        Stage::Finished => 2,
        _ => 0,
    }
}

/// Whether a stage names a feed that the load has: a package feed by its
/// place.
pub open spec fn stage_in_range(stage: Stage, count: int) -> bool {
    match stage {
        Stage::Fetching(Table::Packages, index) => index < count,
        Stage::Reading(Table::Packages, index) => index < count,
        Stage::Writing(Table::Packages, index) => index < count,
        _ => true,
    }
}

/// What holds between a load and the commands issued for it so far.
///
/// The feeds opened are the first feeds of the order. As long as the load
/// has not failed, its stage tells how many feeds were opened, how many
/// transactions were opened and how many commits were asked for.
pub open spec fn on_course(state: LoadState, issued: Seq<CommandView>) -> bool {
    let count = state.sources.len() as int;
    &&& count <= usize::MAX
    &&& stage_in_range(state.stage, count)
    &&& opened(issued).is_prefix_of(feed_order(state))
    &&& 0 <= committed(issued) <= begun(issued) <= 2
    &&& !(state.stage is Failed) ==> {
        &&& opened(issued).len() == feeds_begun(state.stage, count)
        &&& begun(issued) == transactions_begun(state.stage)
        &&& committed(issued) == commits_asked(state.stage)
    }
}

/// Taking `first` and then `second` is taking the two one after the other.
pub proof fn lemma_load_concat(state: LoadState, first: Seq<EventView>, second: Seq<EventView>)
    ensures
        load_after(state, first + second) == load_after(load_after(state, first), second),
    decreases second.len(),
{
    if second.len() == 0 {
        assert(first + second =~= first);
    } else {
        assert((first + second).drop_last() =~= first + second.drop_last());
        assert((first + second).last() == second.last());
        lemma_load_concat(state, first, second.drop_last());
    }
}

/// The commands that answer the first events are the first commands, and the
/// state before an event is the state after the events before it.
pub proof fn lemma_commands_prefix(state: LoadState, events: Seq<EventView>, n: int)
    requires
        0 <= n <= events.len(),
    ensures
        commands(state, events.take(n)) == commands(state, events).take(n),
        n < events.len() ==> commands(state, events)[n] == advance(
            load_after(state, events.take(n)),
            events[n],
        ).1,
        n < events.len() ==> load_after(state, events.take(n + 1)) == advance(
            load_after(state, events.take(n)),
            events[n],
        ).0,
{
    assert forall|i: int| 0 <= i < n implies commands(state, events.take(n))[i] == commands(
        state,
        events,
    )[i] by {
        assert(events.take(n).take(i) =~= events.take(i));
    }
    assert(commands(state, events.take(n)) =~= commands(state, events).take(n));
    if n < events.len() {
        assert(events.take(n + 1).drop_last() =~= events.take(n));
        assert(events.take(n + 1).last() == events[n]);
    }
}

/// The commands that answer `first` and then `second` are the commands that
/// answer `first`, then those that answer `second` from where `first` left
/// the load.
pub proof fn lemma_commands_concat(state: LoadState, first: Seq<EventView>, second: Seq<EventView>)
    ensures
        commands(state, first + second) == commands(state, first) + commands(
            load_after(state, first),
            second,
        ),
{
    let whole = first + second;
    let middle = load_after(state, first);
    assert forall|i: int| 0 <= i < whole.len() implies commands(state, whole)[i] == (commands(
        state,
        first,
    ) + commands(middle, second))[i] by {
        if i < first.len() {
            assert(whole.take(i) =~= first.take(i));
        } else {
            let j = i - first.len();
            assert(whole.take(i) =~= first + second.take(j));
            lemma_load_concat(state, first, second.take(j));
        }
    }
    assert(commands(state, whole) =~= commands(state, first) + commands(middle, second));
}

/// One event is one turn.
pub proof fn lemma_one_event(state: LoadState, event: EventView)
    ensures
        load_after(state, seq![event]) == advance(state, event).0,
        commands(state, seq![event]) == seq![advance(state, event).1],
{
    let events = seq![event];
    assert(events.drop_last() =~= Seq::<EventView>::empty());
    assert(events.take(0) =~= Seq::<EventView>::empty());
    assert(load_after(state, events.drop_last()) == state);
    assert(events.last() == event);
    assert(commands(state, events) =~= seq![advance(state, event).1]);
}

/// A load that is over stays as it is, whatever is reported to it.
pub proof fn lemma_over_is_final(state: LoadState, events: Seq<EventView>)
    requires
        is_over(state.stage),
    ensures
        load_after(state, events) == state,
    decreases events.len(),
{
    if events.len() > 0 {
        lemma_over_is_final(state, events.drop_last());
    }
}

/// After a failure nothing is committed: from the event that reports the
/// failure on, the load issues nothing but `Abort` (or `Finish`, if it was
/// complete before). No row is inserted, no transaction is opened and none
/// is committed.
pub proof fn lemma_nothing_after_failure(state: LoadState, events: Seq<EventView>, k: int, j: int)
    requires
        0 <= k <= j < events.len(),
        events[k] is Failed,
    ensures
        is_halt(commands(state, events)[j]),
        is_over(load_after(state, events.take(j + 1)).stage),
{
    let failed = load_after(state, events.take(k + 1));
    lemma_commands_prefix(state, events, k);
    lemma_commands_prefix(state, events, j);
    assert(is_over(failed.stage));
    if k < j {
        let between = events.subrange(k + 1, j);
        assert(events.take(j) =~= events.take(k + 1) + between);
        lemma_load_concat(state, events.take(k + 1), between);
        lemma_over_is_final(failed, between);
    }
}

/// What each command answers. A load turns to a feed only at the opening of
/// a transaction or at the end of the feed before; it hands out rows only
/// for a line of the feed it reads, packages in the first transaction and
/// files in the second; it commits only at the end of a feed (or at once, if
/// it has no package feed at all).
pub proof fn lemma_turning_points(state: LoadState, event: EventView)
    ensures
        advance(state, event).1 is Open ==> (state.stage is Opening && event is Done) || (
        state.stage is Reading && event is EndOfInput),
        advance(state, event).1 is InsertPackage ==> event is Line && state.stage
            matches Stage::Reading(Table::Packages, _),
        advance(state, event).1 is InsertFiles ==> event is Line && state.stage
            matches Stage::Reading(Table::Contents, _),
        advance(state, event).1 is Commit ==> (state.stage is Reading && event is EndOfInput) || (
        state.stage is Opening && event is Done && state.sources.len() == 0),
{
}

/// One turn keeps a load on course.
proof fn lemma_course_step(state: LoadState, event: EventView, issued: Seq<CommandView>)
    requires
        on_course(state, issued),
    ensures
        on_course(advance(state, event).0, issued.push(advance(state, event).1)),
        advance(state, event).0.sources == state.sources,
        advance(state, event).0.contents_url == state.contents_url,
{
    let (next, command) = advance(state, event);
    let order = feed_order(state);
    let seen = opened(issued);
    let after = issued.push(command);
    assert(after.drop_last() =~= issued);
    assert(after.last() == command);
    assert(feed_order(next) == order);
    match command {
        CommandView::Open(url) => {
            assert(url == order[seen.len() as int]);
            assert(seen.push(url) =~= order.subrange(0, seen.len() as int + 1));
        },
        _ => {},
    }
}

/// A load stays on course: at any point of a run from the start, the feeds
/// opened so far are the first feeds of the order, each once; at most two
/// transactions were opened; and as long as the load has not failed, its
/// stage tells how far it has come.
pub proof fn lemma_on_course(state: LoadState, events: Seq<EventView>)
    requires
        state.stage == Stage::Schema(Table::Packages),
        state.sources.len() <= usize::MAX,
    ensures
        on_course(load_after(state, events), commands(state, events)),
        feed_order(load_after(state, events)) == feed_order(state),
    decreases events.len(),
{
    if events.len() == 0 {
        assert(opened(commands(state, events)) =~= feed_order(state).subrange(0, 0));
    } else {
        let init = events.drop_last();
        lemma_on_course(state, init);
        lemma_commands_prefix(state, events, events.len() - 1);
        assert(events.take(events.len() - 1) =~= init);
        assert(commands(state, events) =~= commands(state, init).push(
            advance(load_after(state, init), events.last()).1,
        ));
        lemma_course_step(load_after(state, init), events.last(), commands(state, init));
    }
}

/// A commit comes only after every feed of its transaction, in order, and
/// after no failure: when the load asks for the commit of the packages it
/// has opened exactly the package feeds, when it asks for the commit of the
/// files it has opened exactly all feeds, and no event up to there reported
/// a failure.
pub proof fn lemma_commit_after_every_feed(state: LoadState, events: Seq<EventView>, j: int)
    requires
        state.stage == Stage::Schema(Table::Packages),
        state.sources.len() <= usize::MAX,
        0 <= j < events.len(),
        commands(state, events)[j] is Commit,
    ensures
        forall|k: int| 0 <= k <= j ==> !(#[trigger] events[k] is Failed),
        load_after(state, events.take(j + 1)).stage is Committing,
        opened(commands(state, events).take(j + 1)) == match load_after(
            state,
            events.take(j + 1),
        ).stage {
            Stage::Committing(Table::Packages) => feed_order(state).drop_last(),
            _ => feed_order(state),
        },
{
    assert forall|k: int| 0 <= k <= j implies !(#[trigger] events[k] is Failed) by {
        if events[k] is Failed {
            lemma_nothing_after_failure(state, events, k, j);
        }
    }
    lemma_on_course(state, events.take(j + 1));
    lemma_commands_prefix(state, events, j + 1);
    lemma_commands_prefix(state, events, j);
    let order = feed_order(state);
    assert(order.subrange(0, order.len() as int) =~= order);
    assert(order.subrange(0, order.len() - 1) =~= order.drop_last());
}

/// Every row is written inside the one transaction of its relation: when
/// the load hands out a package, one transaction has been opened and no
/// commit asked for; when it hands out files, the second transaction has
/// been opened and only the first commit asked for.
pub proof fn lemma_rows_inside_their_transaction(
    state: LoadState,
    events: Seq<EventView>,
    j: int,
)
    requires
        state.stage == Stage::Schema(Table::Packages),
        state.sources.len() <= usize::MAX,
        0 <= j < events.len(),
    ensures
        commands(state, events)[j] is InsertPackage ==> begun(commands(state, events).take(j))
            == 1 && committed(commands(state, events).take(j)) == 0,
        commands(state, events)[j] is InsertFiles ==> begun(commands(state, events).take(j)) == 2
            && committed(commands(state, events).take(j)) == 1,
{
    lemma_on_course(state, events.take(j));
    lemma_commands_prefix(state, events, j);
    lemma_turning_points(load_after(state, events.take(j)), events[j]);
}

} // verus!
