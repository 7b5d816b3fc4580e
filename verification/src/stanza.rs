//! The stanza format: paragraphs of `Key: value` lines, each closed by a
//! blank line, one package per paragraph.

use crate::package::{package_views, Package, PackageView};
use crate::text::{
    chars_of, lemma_lines_of_unlines, line_bounds, lines_of, pieces, single_lines, split,
    split_bounds, text_between, text_is, trim, trimmed, unlines, within,
};
use vstd::prelude::*;

verus! {

/// The key and the value that a line states: the two sides of its colon, both
/// trimmed. A line states a field only if it holds exactly one colon.
pub open spec fn field_of(line: Seq<char>) -> Option<(Seq<char>, Seq<char>)> {
    let parts = split(trimmed(line), ':');
    if parts.len() == 2 {
        Some((trimmed(parts[0]), trimmed(parts[1])))
    } else {
        None
    }
}

/// Whether a line is empty once trimmed.
pub open spec fn is_blank(line: Seq<char>) -> bool {
    trimmed(line).len() == 0
}

/// What a reader holds between two lines: the record it is filling and
/// whether a `Package` line has been seen for it.
pub struct ReaderState {
    pub record: PackageView,
    pub name_seen: bool,
}

/// The state in which a reader for the component `source` starts each record.
pub open spec fn fresh(source: Seq<char>) -> ReaderState {
    ReaderState {
        record: PackageView {
            name: Seq::empty(),
            version: Seq::empty(),
            source,
            description: Seq::empty(),
        },
        name_seen: false,
    }
}

/// The state after the field of `line`, if it states one of the three known
/// keys, has been written into the record.
pub open spec fn absorb(state: ReaderState, line: Seq<char>) -> ReaderState {
    match field_of(line) {
        Some((key, value)) => {
            if key == "Package"@ {
                ReaderState { record: PackageView { name: value, ..state.record }, name_seen: true }
            } else if key == "Version"@ {
                ReaderState { record: PackageView { version: value, ..state.record }, ..state }
            } else if key == "Description"@ {
                ReaderState { record: PackageView { description: value, ..state.record }, ..state }
            } else {
                state
            }
        },
        None => state,
    }
}

/// One line of input: the state it leaves and the record it completes.
///
/// A blank line completes the record if a `Package` line was seen for it, and
/// the reader starts over; any other line only updates the record.
pub open spec fn step(state: ReaderState, line: Seq<char>) -> (ReaderState, Option<PackageView>) {
    let next = absorb(state, line);
    if is_blank(line) && next.name_seen {
        (fresh(state.record.source), Some(next.record))
    } else {
        (next, None)
    }
}

/// The records that a reader in `state` completes while it takes `lines`.
pub open spec fn records(state: ReaderState, lines: Seq<Seq<char>>) -> Seq<PackageView>
    decreases lines.len(),
{
    if lines.len() == 0 {
        Seq::empty()
    } else {
        let (next, out) = step(state, lines[0]);
        match out {
            Some(record) => seq![record] + records(next, lines.drop_first()),
            None => records(next, lines.drop_first()),
        }
    }
}

/// The state of a reader that started in `state` and took `lines`.
pub open spec fn state_after(state: ReaderState, lines: Seq<Seq<char>>) -> ReaderState
    decreases lines.len(),
{
    if lines.len() == 0 {
        state
    } else {
        state_after(step(state, lines[0]).0, lines.drop_first())
    }
}

/// What a reader in `state` does with `lines` up to its next record: the
/// state it is left in, the record, and the number of lines it takes. It
/// takes lines up to the one that completes a record, or all of them if none
/// does.
pub open spec fn until_record(state: ReaderState, lines: Seq<Seq<char>>) -> (
    ReaderState,
    Option<PackageView>,
    int,
)
    decreases lines.len(),
{
    if lines.len() == 0 {
        (state, None, 0)
    } else {
        let (next, out) = step(state, lines[0]);
        if out is Some {
            (next, out, 1)
        } else {
            let later = until_record(next, lines.drop_first());
            (later.0, later.1, later.2 + 1)
        }
    }
}

/// Whether `line` states a field under `key`.
pub open spec fn states(line: Seq<char>, key: Seq<char>) -> bool {
    field_of(line) matches Some((k, _)) && k == key
}

/// The value of the field that `line` states; empty if it states none.
pub open spec fn value_of(line: Seq<char>) -> Seq<char> {
    match field_of(line) {
        Some((_, value)) => value,
        None => Seq::empty(),
    }
}

/// The value of the last line of `lines` that states `key`, or `default` if
/// no line does.
pub open spec fn last_value_or(lines: Seq<Seq<char>>, key: Seq<char>, default: Seq<char>) -> Seq<
    char,
>
    decreases lines.len(),
{
    if lines.len() == 0 {
        default
    } else if states(lines.last(), key) {
        value_of(lines.last())
    } else {
        last_value_or(lines.drop_last(), key, default)
    }
}

/// The value of the last line of `lines` that states `key`; empty if no line
/// does.
pub open spec fn last_value(lines: Seq<Seq<char>>, key: Seq<char>) -> Seq<char> {
    last_value_or(lines, key, Seq::empty())
}

/// Whether some line of `lines` states `key`.
pub open spec fn mentions(lines: Seq<Seq<char>>, key: Seq<char>) -> bool {
    exists|i: int| 0 <= i < lines.len() && states(#[trigger] lines[i], key)
}

/// Whether no line of `lines` is blank.
pub open spec fn unbroken(lines: Seq<Seq<char>>) -> bool {
    forall|i: int| 0 <= i < lines.len() ==> !is_blank(#[trigger] lines[i])
}

/// A paragraph: lines that are not blank, and one blank line that closes
/// them.
pub open spec fn is_paragraph(lines: Seq<Seq<char>>) -> bool {
    &&& lines.len() > 0
    &&& is_blank(lines.last())
    &&& unbroken(lines.drop_last())
}

/// A well-formed stanza: a paragraph with a `Package` line.
pub open spec fn is_stanza(lines: Seq<Seq<char>>) -> bool {
    is_paragraph(lines) && mentions(lines, "Package"@)
}

/// How many of the paragraphs hold a `Package` line.
pub open spec fn named_paragraphs(paragraphs: Seq<Seq<Seq<char>>>) -> nat
    decreases paragraphs.len(),
{
    if paragraphs.len() == 0 {
        0
    } else if mentions(paragraphs[0], "Package"@) {
        1 + named_paragraphs(paragraphs.drop_first())
    } else {
        named_paragraphs(paragraphs.drop_first())
    }
}

/// The record that a well-formed stanza describes: each field is the value of
/// the last line of the stanza that states its key.
pub open spec fn record_of(source: Seq<char>, stanza: Seq<Seq<char>>) -> PackageView {
    PackageView {
        name: last_value(stanza, "Package"@),
        version: last_value(stanza, "Version"@),
        source,
        description: last_value(stanza, "Description"@),
    }
}

/// The records that a list of well-formed stanzas describes, in order.
pub open spec fn stanza_records(source: Seq<char>, stanzas: Seq<Seq<Seq<char>>>) -> Seq<
    PackageView,
> {
    Seq::new(stanzas.len(), |i: int| record_of(source, stanzas[i]))
}

/// The three keys are three different texts.
proof fn lemma_keys_differ()
    ensures
        "Package"@ != "Version"@,
        "Package"@ != "Description"@,
        "Version"@ != "Description"@,
{
    reveal_strlit("Package");
    reveal_strlit("Version");
    reveal_strlit("Description");
    assert("Package"@[0] != "Version"@[0]);
    assert("Package"@.len() != "Description"@.len());
    assert("Version"@.len() != "Description"@.len());
}

/// A blank line states no field.
proof fn lemma_blank_states_nothing(line: Seq<char>)
    requires
        is_blank(line),
    ensures
        field_of(line) is None,
{
    let t = trimmed(line);
    assert(split(t, ':') =~= seq![t]);
}

/// Reading one line is one step.
proof fn lemma_single_line(state: ReaderState, line: Seq<char>)
    ensures
        records(state, seq![line]) == match step(state, line).1 {
            Some(record) => seq![record],
            None => Seq::empty(),
        },
        state_after(state, seq![line]) == step(state, line).0,
{
    let lines = seq![line];
    let next = step(state, line).0;
    assert(lines[0] == line);
    assert(lines.drop_first() =~= Seq::<Seq<char>>::empty());
    assert(records(next, lines.drop_first()) =~= Seq::<PackageView>::empty());
    assert(state_after(next, lines.drop_first()) == next);
    match step(state, line).1 {
        Some(record) => {
            assert(seq![record] + Seq::<PackageView>::empty() =~= seq![record]);
        },
        None => {},
    }
}

/// Reading `first` and then `second` is reading the two one after the other.
pub proof fn lemma_records_concat(state: ReaderState, first: Seq<Seq<char>>, second: Seq<Seq<char>>)
    ensures
        records(state, first + second) == records(state, first) + records(
            state_after(state, first),
            second,
        ),
        state_after(state, first + second) == state_after(state_after(state, first), second),
    decreases first.len(),
{
    if first.len() == 0 {
        assert(first + second =~= second);
        assert(records(state, first) + records(state, second) =~= records(state, second));
    } else {
        let (next, out) = step(state, first[0]);
        assert((first + second)[0] == first[0]);
        assert((first + second).drop_first() =~= first.drop_first() + second);
        lemma_records_concat(next, first.drop_first(), second);
        let tail = records(state_after(next, first.drop_first()), second);
        match out {
            Some(record) => {
                assert(seq![record] + (records(next, first.drop_first()) + tail) =~= (seq![record]
                    + records(next, first.drop_first())) + tail);
            },
            None => {},
        }
    }
}

/// The records of `lines` are the next record and the records of the lines
/// after it: reading record by record yields what reading line by line
/// yields.
pub proof fn lemma_records_by_pulling(state: ReaderState, lines: Seq<Seq<char>>)
    ensures
        0 <= until_record(state, lines).2 <= lines.len(),
        match until_record(state, lines).1 {
            Some(record) => until_record(state, lines).2 >= 1 && records(state, lines) == seq![
                record,
            ] + records(until_record(state, lines).0, lines.skip(until_record(state, lines).2)),
            None => until_record(state, lines).2 == lines.len() && records(state, lines)
                == Seq::<PackageView>::empty(),
        },
    decreases lines.len(),
{
    if lines.len() > 0 {
        let (next, out) = step(state, lines[0]);
        if out is Some {
            assert(lines.skip(1) =~= lines.drop_first());
        } else {
            let rest = lines.drop_first();
            lemma_records_by_pulling(next, rest);
            assert(lines.skip(until_record(next, rest).2 + 1) =~= rest.skip(
                until_record(next, rest).2,
            ));
        }
    }
}

/// Lines without a blank line among them complete no record; they leave in
/// each field the value of the last line that states its key, or what the
/// field held before if no line does.
pub proof fn lemma_unbroken_lines(state: ReaderState, lines: Seq<Seq<char>>)
    requires
        unbroken(lines),
    ensures
        records(state, lines) == Seq::<PackageView>::empty(),
        state_after(state, lines) == (ReaderState {
            record: PackageView {
                name: last_value_or(lines, "Package"@, state.record.name),
                version: last_value_or(lines, "Version"@, state.record.version),
                source: state.record.source,
                description: last_value_or(lines, "Description"@, state.record.description),
            },
            name_seen: state.name_seen || mentions(lines, "Package"@),
        }),
    decreases lines.len(),
{
    lemma_keys_differ();
    if lines.len() > 0 {
        let init = lines.drop_last();
        let last = lines.last();
        assert(lines =~= init + seq![last]);
        assert forall|i: int| 0 <= i < init.len() implies !is_blank(#[trigger] init[i]) by {
            assert(init[i] == lines[i]);
        }
        lemma_unbroken_lines(state, init);
        lemma_records_concat(state, init, seq![last]);
        let mid = state_after(state, init);
        assert(!is_blank(last));
        lemma_single_line(mid, last);
        if mentions(init, "Package"@) {
            let i = choose|i: int| 0 <= i < init.len() && states(#[trigger] init[i], "Package"@);
            assert(lines[i] == init[i]);
        }
        if mentions(lines, "Package"@) && !states(last, "Package"@) {
            let i = choose|i: int| 0 <= i < lines.len() && states(#[trigger] lines[i], "Package"@);
            assert(init[i] == lines[i]);
        }
    }
}

/// Every well-formed stanza yields exactly one record, whose fields are the
/// values of the last lines of that stanza that state their keys; after the
/// last stanza the reader is where it started.
pub proof fn lemma_one_record_per_stanza(source: Seq<char>, stanzas: Seq<Seq<Seq<char>>>)
    requires
        forall|i: int| 0 <= i < stanzas.len() ==> is_stanza(#[trigger] stanzas[i]),
    ensures
        records(fresh(source), stanzas.flatten()) == stanza_records(source, stanzas),
        state_after(fresh(source), stanzas.flatten()) == fresh(source),
    decreases stanzas.len(),
{
    if stanzas.len() == 0 {
        assert(stanza_records(source, stanzas) =~= Seq::<PackageView>::empty());
    } else {
        let stanza = stanzas[0];
        let rest = stanzas.drop_first();
        let body = stanza.drop_last();
        let blank = stanza.last();
        assert(is_stanza(stanza));
        assert forall|i: int| 0 <= i < rest.len() implies is_stanza(#[trigger] rest[i]) by {
            assert(rest[i] == stanzas[i + 1]);
        }
        lemma_one_record_per_stanza(source, rest);
        lemma_blank_states_nothing(blank);
        lemma_unbroken_lines(fresh(source), body);
        let filled = state_after(fresh(source), body);
        let i = choose|i: int| 0 <= i < stanza.len() && states(#[trigger] stanza[i], "Package"@);
        assert(body[i] == stanza[i]);
        assert(filled.name_seen);
        assert(stanza =~= body + seq![blank]);
        lemma_records_concat(fresh(source), body, seq![blank]);
        lemma_single_line(filled, blank);
        assert(step(filled, blank) == (fresh(source), Some(filled.record)));
        assert(filled.record == record_of(source, stanza));
        assert(records(fresh(source), stanza) =~= seq![record_of(source, stanza)]);
        lemma_records_concat(fresh(source), stanza, rest.flatten());
        assert(stanzas.flatten() == stanza + rest.flatten());
        assert(seq![record_of(source, stanza)] + stanza_records(source, rest) =~= stanza_records(
            source,
            stanzas,
        ));
    }
}

/// The same of a text: where every line of well-formed stanzas is written
/// out with a line feed after it, reading the text yields exactly one record
/// for each stanza.
pub proof fn lemma_one_record_per_stanza_of_text(source: Seq<char>, stanzas: Seq<Seq<Seq<char>>>)
    requires
        forall|i: int| 0 <= i < stanzas.len() ==> is_stanza(#[trigger] stanzas[i]),
        single_lines(stanzas.flatten()),
    ensures
        records(fresh(source), lines_of(unlines(stanzas.flatten()))) == stanza_records(
            source,
            stanzas,
        ),
{
    lemma_lines_of_unlines(stanzas.flatten());
    lemma_one_record_per_stanza(source, stanzas);
}

/// Lines among which none states `Package` complete no record, however many
/// blank lines they hold, when no `Package` line came before them.
pub proof fn lemma_no_package_no_record(state: ReaderState, lines: Seq<Seq<char>>)
    requires
        !state.name_seen,
        !mentions(lines, "Package"@),
    ensures
        records(state, lines) == Seq::<PackageView>::empty(),
        !state_after(state, lines).name_seen,
    decreases lines.len(),
{
    if lines.len() > 0 {
        let rest = lines.drop_first();
        assert(!states(lines[0], "Package"@));
        assert forall|i: int| 0 <= i < rest.len() implies !states(#[trigger] rest[i], "Package"@) by {
            assert(rest[i] == lines[i + 1]);
        }
        lemma_no_package_no_record(step(state, lines[0]).0, rest);
    }
}

/// A paragraph without a `Package` line yields no record, wherever it
/// stands: a text of paragraphs yields as many records as it has paragraphs
/// with a `Package` line.
pub proof fn lemma_one_record_per_named_paragraph(
    state: ReaderState,
    paragraphs: Seq<Seq<Seq<char>>>,
)
    requires
        !state.name_seen,
        forall|i: int| 0 <= i < paragraphs.len() ==> is_paragraph(#[trigger] paragraphs[i]),
    ensures
        records(state, paragraphs.flatten()).len() == named_paragraphs(paragraphs),
        !state_after(state, paragraphs.flatten()).name_seen,
    decreases paragraphs.len(),
{
    if paragraphs.len() > 0 {
        let paragraph = paragraphs[0];
        let rest = paragraphs.drop_first();
        let body = paragraph.drop_last();
        let blank = paragraph.last();
        assert(is_paragraph(paragraph));
        assert forall|i: int| 0 <= i < rest.len() implies is_paragraph(#[trigger] rest[i]) by {
            assert(rest[i] == paragraphs[i + 1]);
        }
        lemma_blank_states_nothing(blank);
        lemma_unbroken_lines(state, body);
        let filled = state_after(state, body);
        assert(paragraph =~= body + seq![blank]);
        lemma_records_concat(state, body, seq![blank]);
        lemma_single_line(filled, blank);
        if mentions(body, "Package"@) {
            let i = choose|i: int| 0 <= i < body.len() && states(#[trigger] body[i], "Package"@);
            assert(paragraph[i] == body[i]);
        }
        if mentions(paragraph, "Package"@) {
            let i = choose|i: int|
                0 <= i < paragraph.len() && states(#[trigger] paragraph[i], "Package"@);
            assert(body[i] == paragraph[i]);
        }
        let closed = state_after(state, paragraph);
        assert(!closed.name_seen);
        lemma_one_record_per_named_paragraph(closed, rest);
        lemma_records_concat(state, paragraph, rest.flatten());
        assert(paragraphs.flatten() == paragraph + rest.flatten());
    }
}

/// Lines after the last blank line are dropped: a stanza that no blank line
/// closes adds no record to what was read before it.
pub proof fn lemma_unclosed_stanza_dropped(
    state: ReaderState,
    lines: Seq<Seq<char>>,
    tail: Seq<Seq<char>>,
)
    requires
        unbroken(tail),
    ensures
        records(state, lines + tail) == records(state, lines),
{
    lemma_records_concat(state, lines, tail);
    lemma_unbroken_lines(state_after(state, lines), tail);
    assert(records(state, lines) + Seq::<PackageView>::empty() =~= records(state, lines));
}

/// The records read are a function of the component and the text alone: two
/// results that the contract of [`parse_packages`] admits for one input are
/// the same list of records.
pub proof fn lemma_same_text_same_records(
    source: Seq<char>,
    text: Seq<char>,
    first: Seq<Package>,
    second: Seq<Package>,
)
    requires
        package_views(first) == records(fresh(source), lines_of(text)),
        package_views(second) == records(fresh(source), lines_of(text)),
    ensures
        package_views(first) == package_views(second),
{
}

/// Takes the lines of a stream one at a time and hands out the package
/// records that they complete. It holds one record and nothing else of the
/// stream.
pub struct StanzaParser {
    current: Package,
    name_seen: bool,
}

impl View for StanzaParser {
    type V = ReaderState;

    closed spec fn view(&self) -> ReaderState {
        ReaderState { record: self.current@, name_seen: self.name_seen }
    }
}

impl StanzaParser {
    /// A parser for the archive component `source`, before its first line.
    pub fn new(source: String) -> (parser: StanzaParser)
        ensures
            parser@ == fresh(source@),
    {
        StanzaParser {
            current: Package {
                name: String::new(),
                version: String::new(),
                source,
                description: String::new(),
            },
            name_seen: false,
        }
    }

    /// Whether a `Package` line has been seen for the record being filled.
    pub fn name_seen(&self) -> (b: bool)
        ensures
            b == self@.name_seen,
    {
        self.name_seen
    }

    /// Takes the next line of the stream and returns the record that it
    /// completes, if it completes one.
    pub fn feed(&mut self, line: &str) -> (out: Option<Package>)
        ensures
            final(self)@ == step(old(self)@, line@).0,
            match out {
                Some(record) => step(old(self)@, line@).1 == Some(record@),
                None => step(old(self)@, line@).1 is None,
            },
    {
        let chars = chars_of(line);
        assert(chars@.subrange(0, chars@.len() as int) =~= line@);
        self.feed_chars(chars.as_slice(), 0, chars.len())
    }

    /// Takes the line `text[start..end]` as [`StanzaParser::feed`] takes a
    /// line.
    pub fn feed_chars(&mut self, text: &[char], start: usize, end: usize) -> (out: Option<Package>)
        requires
            start <= end <= text@.len(),
        ensures
            final(self)@ == step(old(self)@, text@.subrange(start as int, end as int)).0,
            match out {
                Some(record) => step(old(self)@, text@.subrange(start as int, end as int)).1
                    == Some(record@),
                None => step(old(self)@, text@.subrange(start as int, end as int)).1 is None,
            },
    {
        let (from, to) = trim(text, start, end);
        let parts = split_bounds(text, from, to, ':');
        if parts.len() == 2 {
            let (key_from, key_to) = trim(text, parts[0].0, parts[0].1);
            let (from, to) = trim(text, parts[1].0, parts[1].1);
            if text_is(text, key_from, key_to, "Package") {
                self.current.name = text_between(text, from, to);
                self.name_seen = true;
            } else if text_is(text, key_from, key_to, "Version") {
                self.current.version = text_between(text, from, to);
            } else if text_is(text, key_from, key_to, "Description") {
                self.current.description = text_between(text, from, to);
            }
        }
        if from == to && self.name_seen {
            let mut done = Package {
                name: String::new(),
                version: String::new(),
                source: self.current.source.clone(),
                description: String::new(),
            };
            std::mem::swap(&mut self.current, &mut done);
            self.name_seen = false;
            Some(done)
        } else {
            None
        }
    }
}

/// Reads the package records of a text one after the other.
pub struct PackageReader {
    parser: StanzaParser,
    chars: Vec<char>,
    lines: Vec<(usize, usize)>,
    position: usize,
}

/// Mathematical model of a [`PackageReader`]: the state of its parser and
/// the lines it has not read yet.
pub struct PackageReaderView {
    pub state: ReaderState,
    pub lines: Seq<Seq<char>>,
}

impl View for PackageReader {
    type V = PackageReaderView;

    closed spec fn view(&self) -> PackageReaderView {
        PackageReaderView {
            state: self.parser@,
            lines: pieces(self.chars@, self.lines@).skip(self.position as int),
        }
    }
}

impl PackageReader {
    /// Whether the reader knows where its lines are. Every reader that
    /// [`PackageReader::new`] makes does, and stays so.
    pub closed spec fn wf(&self) -> bool {
        &&& self.position <= self.lines@.len()
        &&& within(self.lines@, 0, self.chars@.len() as int)
    }

    /// A reader of the records of `text`, for the archive component
    /// `source`.
    pub fn new(source: String, text: &str) -> (reader: PackageReader)
        ensures
            reader.wf(),
            reader@.state == fresh(source@),
            reader@.lines == lines_of(text@),
    {
        let chars = chars_of(text);
        let lines = line_bounds(chars.as_slice());
        proof {
            assert(pieces(chars@, lines@).skip(0) =~= lines_of(text@));
        }
        PackageReader { parser: StanzaParser::new(source), chars, lines, position: 0 }
    }

    /// The next record of the text, or nothing when the text holds no
    /// further record. A reader that has handed out nothing has read all of
    /// its text and hands out nothing from then on.
    pub fn next(&mut self) -> (out: Option<Package>)
        requires
            old(self).wf(),
        ensures
            final(self).wf(),
            final(self)@.state == until_record(old(self)@.state, old(self)@.lines).0,
            final(self)@.lines == old(self)@.lines.skip(
                until_record(old(self)@.state, old(self)@.lines).2,
            ),
            match out {
                Some(record) => until_record(old(self)@.state, old(self)@.lines).1 == Some(
                    record@,
                ),
                None => until_record(old(self)@.state, old(self)@.lines).1 is None,
            },
    {
        let ghost first = self@.state;
        let ghost lines = self@.lines;
        let ghost start = self.position;
        proof {
            assert(lines.skip(0) =~= lines);
        }
        while self.position < self.lines.len()
            invariant
                self.chars == old(self).chars,
                self.lines == old(self).lines,
                first == old(self)@.state,
                lines == old(self)@.lines,
                start <= self.position <= self.lines@.len(),
                within(self.lines@, 0, self.chars@.len() as int),
                lines == pieces(self.chars@, self.lines@).skip(start as int),
                until_record(first, lines).0 == until_record(
                    self.parser@,
                    lines.skip(self.position - start),
                ).0,
                until_record(first, lines).1 == until_record(
                    self.parser@,
                    lines.skip(self.position - start),
                ).1,
                until_record(first, lines).2 == until_record(
                    self.parser@,
                    lines.skip(self.position - start),
                ).2 + (self.position - start),
            decreases self.lines@.len() - self.position,
        {
            let (from, to) = self.lines[self.position];
            let ghost rest = lines.skip(self.position - start);
            let ghost before = self.parser@;
            proof {
                assert(rest[0] == self.chars@.subrange(from as int, to as int));
                assert(rest.drop_first() =~= lines.skip(self.position - start + 1));
            }
            self.position += 1;
            match self.parser.feed_chars(self.chars.as_slice(), from, to) {
                Some(record) => {
                    proof {
                        assert(until_record(before, rest) == (self.parser@, Some(record@), 1int));
                        assert(pieces(self.chars@, self.lines@).skip(self.position as int)
                            =~= lines.skip(self.position - start));
                    }
                    return Some(record);
                },
                None => {
                    proof {
                        let later = until_record(self.parser@, rest.drop_first());
                        assert(until_record(before, rest) == (later.0, later.1, later.2 + 1));
                    }
                },
            }
        }
        proof {
            assert(lines.skip(self.position - start) =~= Seq::<Seq<char>>::empty());
            assert(pieces(self.chars@, self.lines@).skip(self.position as int) =~= lines.skip(
                self.position - start,
            ));
        }
        None
    }
}

/// Reads every record out of `text`, for the archive component `source`.
/// The last stanza counts only if a blank line follows it.
pub fn parse_packages(source: &str, text: &str) -> (out: Vec<Package>)
    ensures
        package_views(out@) == records(fresh(source@), lines_of(text@)),
{
    let mut reader = PackageReader::new(source.to_owned(), text);
    let mut out: Vec<Package> = Vec::new();
    let ghost all = records(fresh(source@), lines_of(text@));
    proof {
        assert(package_views(out@) + all =~= all);
    }
    loop
        invariant
            reader.wf(),
            package_views(out@) + records(reader@.state, reader@.lines) == all,
        ensures
            package_views(out@) == all,
        decreases reader@.lines.len(),
    {
        let ghost before = reader@;
        proof {
            lemma_records_by_pulling(before.state, before.lines);
        }
        match reader.next() {
            Some(record) => {
                proof {
                    assert(package_views(out@.push(record)) =~= package_views(out@).push(record@));
                    assert(package_views(out@).push(record@) + records(reader@.state, reader@.lines)
                        =~= package_views(out@) + (seq![record@] + records(
                        reader@.state,
                        reader@.lines,
                    )));
                }
                out.push(record);
            },
            None => {
                proof {
                    assert(package_views(out@) + Seq::<PackageView>::empty() =~= package_views(
                        out@,
                    ));
                }
                break ;
            },
        }
    }
    out
}

} // verus!
