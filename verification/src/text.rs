//! Character-level scanning shared by the two line formats: whitespace,
//! runs of characters of one class, trimming and splitting.

use vstd::prelude::*;

verus! {

/// Whether `c` is white space in the sense of the Unicode `White_Space`
/// property.
pub open spec fn is_space(c: char) -> bool {
    let n = c as u32;
    ||| 0x09 <= n <= 0x0D
    ||| n == 0x20
    ||| n == 0x85
    ||| n == 0xA0
    ||| n == 0x1680
    ||| 0x2000 <= n <= 0x200A
    ||| n == 0x2028
    ||| n == 0x2029
    ||| n == 0x202F
    ||| n == 0x205F
    ||| n == 0x3000
}

/// A class of characters that a scan runs over.
#[derive(Clone, Copy, Debug, PartialEq, Eq)]
pub enum CharClass {
    /// White space.
    Space,
    /// Anything but white space.
    Word,
    /// Anything but the given character.
    Except(char),
}

impl CharClass {
    /// Whether `c` belongs to the class.
    pub open spec fn has(self, c: char) -> bool {
        match self {
            CharClass::Space => is_space(c),
            CharClass::Word => !is_space(c),
            CharClass::Except(x) => c != x,
        }
    }

    /// Tests a character for membership.
    pub fn contains(&self, c: char) -> (b: bool)
        ensures
            b == self.has(c),
    {
        match self {
            CharClass::Space => is_whitespace(c),
            CharClass::Word => !is_whitespace(c),
            CharClass::Except(x) => c != *x,
        }
    }
}

/// Length of the longest prefix of `s` made of characters of `class`.
pub open spec fn run_len(s: Seq<char>, class: CharClass) -> nat
    decreases s.len(),
{
    if s.len() > 0 && class.has(s[0]) {
        1 + run_len(s.drop_first(), class)
    } else {
        0
    }
}

/// Length of the longest suffix of `s` made of characters of `class`.
pub open spec fn back_run_len(s: Seq<char>, class: CharClass) -> nat
    decreases s.len(),
{
    if s.len() > 0 && class.has(s.last()) {
        1 + back_run_len(s.drop_last(), class)
    } else {
        0
    }
}

/// `s` without its leading white space.
pub open spec fn trim_start(s: Seq<char>) -> Seq<char> {
    s.skip(run_len(s, CharClass::Space) as int)
}

/// `s` without its trailing white space.
pub open spec fn trim_end(s: Seq<char>) -> Seq<char> {
    s.take(s.len() - back_run_len(s, CharClass::Space))
}

/// `s` without the white space at either end.
pub open spec fn trimmed(s: Seq<char>) -> Seq<char> {
    trim_end(trim_start(s))
}

/// The pieces of `s` between occurrences of `sep`: one more piece than there
/// are separators, so an empty `s` is one empty piece.
pub open spec fn split(s: Seq<char>, sep: char) -> Seq<Seq<char>>
    decreases s.len(),
    via split_decreases
{
    let k = run_len(s, CharClass::Except(sep)) as int;
    if k < s.len() {
        seq![s.take(k)] + split(s.skip(k + 1), sep)
    } else {
        seq![s]
    }
}

#[via_fn]
proof fn split_decreases(s: Seq<char>, sep: char) {
    lemma_run_len(s, CharClass::Except(sep));
}

/// The pieces of `parts` put together again, with `sep` between each two.
pub open spec fn join(parts: Seq<Seq<char>>, sep: char) -> Seq<char>
    decreases parts.len(),
{
    if parts.len() == 0 {
        Seq::empty()
    } else if parts.len() == 1 {
        parts[0]
    } else {
        parts[0].push(sep) + join(parts.drop_first(), sep)
    }
}

/// The lines of a text: its pieces between line feeds, without the empty
/// piece after a final line feed. An empty text has no line.
pub open spec fn lines_of(s: Seq<char>) -> Seq<Seq<char>> {
    let parts = split(s, '\n');
    if parts.last().len() == 0 {
        parts.drop_last()
    } else {
        parts
    }
}

/// The text whose lines are `lines`: each line with a line feed after it.
pub open spec fn unlines(lines: Seq<Seq<char>>) -> Seq<char>
    decreases lines.len(),
{
    if lines.len() == 0 {
        Seq::empty()
    } else {
        lines[0].push('\n') + unlines(lines.drop_first())
    }
}

/// Whether no line of `lines` holds a line feed.
pub open spec fn single_lines(lines: Seq<Seq<char>>) -> bool {
    forall|i: int, j: int|
        0 <= i < lines.len() && 0 <= j < lines[i].len() ==> (#[trigger] lines[i][j]) != '\n'
}

/// The maximal runs of characters of `s` that are not white space, in order.
pub open spec fn tokens(s: Seq<char>) -> Seq<Seq<char>>
    decreases s.len(),
    via tokens_decreases
{
    let rest = trim_start(s);
    let k = run_len(rest, CharClass::Word) as int;
    if k == 0 {
        Seq::empty()
    } else {
        seq![rest.take(k)] + tokens(rest.skip(k))
    }
}

#[via_fn]
proof fn tokens_decreases(s: Seq<char>) {
    lemma_run_len(s, CharClass::Space);
    lemma_run_len(trim_start(s), CharClass::Word);
}

/// A prefix run is at most the whole sequence, covers only characters of the
/// class, and stops at the first character outside it.
pub proof fn lemma_run_len(s: Seq<char>, class: CharClass)
    ensures
        0 <= run_len(s, class) <= s.len(),
        forall|i: int| 0 <= i < run_len(s, class) ==> class.has(#[trigger] s[i]),
        run_len(s, class) < s.len() ==> !class.has(s[run_len(s, class) as int]),
    decreases s.len(),
{
    if s.len() > 0 && class.has(s[0]) {
        let rest = s.drop_first();
        lemma_run_len(rest, class);
        assert forall|i: int| 0 <= i < run_len(s, class) implies class.has(#[trigger] s[i]) by {
            if i > 0 {
                assert(s[i] == rest[i - 1]);
            }
        }
        if run_len(s, class) < s.len() {
            assert(s[run_len(s, class) as int] == rest[run_len(rest, class) as int]);
        }
    }
}

/// The prefix run is the only length with the two properties of
/// [`lemma_run_len`].
pub proof fn lemma_run_len_is(s: Seq<char>, class: CharClass, k: int)
    requires
        0 <= k <= s.len(),
        forall|i: int| 0 <= i < k ==> class.has(#[trigger] s[i]),
        k < s.len() ==> !class.has(s[k]),
    ensures
        run_len(s, class) == k,
    decreases s.len(),
{
    if k > 0 {
        let rest = s.drop_first();
        assert(class.has(s[0]));
        assert forall|i: int| 0 <= i < k - 1 implies class.has(#[trigger] rest[i]) by {
            assert(rest[i] == s[i + 1]);
        }
        lemma_run_len_is(rest, class, k - 1);
    }
}

/// A suffix run is at most the whole sequence, covers only characters of the
/// class, and stops at the last character outside it.
pub proof fn lemma_back_run_len(s: Seq<char>, class: CharClass)
    ensures
        back_run_len(s, class) <= s.len(),
        forall|i: int| s.len() - back_run_len(s, class) <= i < s.len() ==> class.has(#[trigger] s[i]),
        back_run_len(s, class) < s.len() ==> !class.has(s[s.len() - back_run_len(s, class) - 1]),
    decreases s.len(),
{
    if s.len() > 0 && class.has(s.last()) {
        let rest = s.drop_last();
        lemma_back_run_len(rest, class);
        assert forall|i: int| s.len() - back_run_len(s, class) <= i < s.len() implies class.has(
            #[trigger] s[i],
        ) by {
            if i < s.len() - 1 {
                assert(s[i] == rest[i]);
            }
        }
        if back_run_len(s, class) < s.len() {
            assert(s[s.len() - back_run_len(s, class) - 1] == rest[rest.len() - back_run_len(
                rest,
                class,
            ) - 1]);
        }
    }
}

/// The suffix run is the only length with the two properties of
/// [`lemma_back_run_len`].
pub proof fn lemma_back_run_len_is(s: Seq<char>, class: CharClass, k: int)
    requires
        0 <= k <= s.len(),
        forall|i: int| s.len() - k <= i < s.len() ==> class.has(#[trigger] s[i]),
        k < s.len() ==> !class.has(s[s.len() - k - 1]),
    ensures
        back_run_len(s, class) == k,
    decreases s.len(),
{
    if k > 0 {
        let rest = s.drop_last();
        assert(class.has(s[s.len() - 1]));
        assert forall|i: int| rest.len() - (k - 1) <= i < rest.len() implies class.has(
            #[trigger] rest[i],
        ) by {
            assert(rest[i] == s[i]);
        }
        lemma_back_run_len_is(rest, class, k - 1);
    }
}

/// What trimming takes away is white space, and what it leaves neither
/// begins nor ends with white space: `trimmed(s)` is `s[from..to]` for the
/// bounds that the lemma returns.
pub proof fn lemma_trimmed(s: Seq<char>) -> (bounds: (int, int))
    ensures
        0 <= bounds.0 <= bounds.1 <= s.len(),
        trimmed(s) == s.subrange(bounds.0, bounds.1),
        forall|i: int| 0 <= i < bounds.0 || bounds.1 <= i < s.len() ==> is_space(#[trigger] s[i]),
        bounds.0 < bounds.1 ==> !is_space(s[bounds.0]) && !is_space(s[bounds.1 - 1]),
{
    let from = run_len(s, CharClass::Space) as int;
    let rest = trim_start(s);
    let to = s.len() - back_run_len(rest, CharClass::Space);
    lemma_run_len(s, CharClass::Space);
    lemma_back_run_len(rest, CharClass::Space);
    assert(trimmed(s) =~= s.subrange(from, to));
    assert forall|i: int| 0 <= i < from || to <= i < s.len() implies is_space(#[trigger] s[i]) by {
        if to <= i {
            assert(s[i] == rest[i - from]);
        }
    }
    if from < to {
        assert(s[to - 1] == rest[to - 1 - from]);
    }
    (from, to)
}

/// No piece of a split holds the separator, and the pieces joined with the
/// separator are the text that was split.
pub proof fn lemma_split(s: Seq<char>, sep: char)
    ensures
        split(s, sep).len() >= 1,
        forall|i: int, j: int|
            0 <= i < split(s, sep).len() && 0 <= j < split(s, sep)[i].len() ==> (#[trigger] split(
                s,
                sep,
            )[i][j]) != sep,
        join(split(s, sep), sep) == s,
    decreases s.len(),
{
    let class = CharClass::Except(sep);
    let k = run_len(s, class) as int;
    lemma_run_len(s, class);
    if k < s.len() {
        let head = s.take(k);
        let rest = s.skip(k + 1);
        let parts = split(s, sep);
        lemma_split(rest, sep);
        assert(parts[0] == head);
        assert(parts.drop_first() =~= split(rest, sep));
        assert forall|i: int, j: int|
            0 <= i < parts.len() && 0 <= j < parts[i].len() implies (#[trigger] parts[i][j])
            != sep by {
            if i == 0 {
                assert(head[j] == s[j]);
            } else {
                assert(parts[i] == split(rest, sep)[i - 1]);
            }
        }
        assert(head.push(sep) + rest =~= s);
    }
}

/// Splitting a text at its line feeds gives back the lines it was made of,
/// and one empty piece after the last line feed.
proof fn lemma_split_unlines(lines: Seq<Seq<char>>)
    requires
        single_lines(lines),
    ensures
        split(unlines(lines), '\n') == lines.push(Seq::empty()),
    decreases lines.len(),
{
    let text = unlines(lines);
    if lines.len() == 0 {
        assert(split(text, '\n') =~= lines.push(Seq::empty()));
    } else {
        let line = lines[0];
        let rest = lines.drop_first();
        assert forall|i: int, j: int| 0 <= i < rest.len() && 0 <= j < rest[i].len() implies (
        #[trigger] rest[i][j]) != '\n' by {
            assert(rest[i] == lines[i + 1]);
        }
        lemma_split_unlines(rest);
        assert forall|j: int| 0 <= j < line.len() implies CharClass::Except('\n').has(
            #[trigger] text[j],
        ) by {
            assert(text[j] == line[j]);
        }
        assert(text[line.len() as int] == '\n');
        lemma_run_len_is(text, CharClass::Except('\n'), line.len() as int);
        assert(text.take(line.len() as int) =~= line);
        assert(text.skip(line.len() as int + 1) =~= unlines(rest));
        assert(seq![line] + rest.push(Seq::empty()) =~= lines.push(Seq::empty()));
    }
}

/// The lines of a text are the lines it was made of: reading the lines of
/// `unlines(lines)` gives `lines` back.
pub proof fn lemma_lines_of_unlines(lines: Seq<Seq<char>>)
    requires
        single_lines(lines),
    ensures
        lines_of(unlines(lines)) == lines,
{
    lemma_split_unlines(lines);
    assert(lines.push(Seq::<char>::empty()).drop_last() =~= lines);
}

/// Every token holds at least one character and no white space.
pub proof fn lemma_tokens(s: Seq<char>)
    ensures
        forall|i: int| 0 <= i < tokens(s).len() ==> (#[trigger] tokens(s)[i]).len() > 0,
        forall|i: int, j: int|
            0 <= i < tokens(s).len() && 0 <= j < tokens(s)[i].len() ==> !is_space(
                #[trigger] tokens(s)[i][j],
            ),
    decreases s.len(),
{
    let rest = trim_start(s);
    let k = run_len(rest, CharClass::Word) as int;
    lemma_run_len(s, CharClass::Space);
    lemma_run_len(rest, CharClass::Word);
    if k != 0 {
        let all = tokens(s);
        let later = tokens(rest.skip(k));
        lemma_tokens(rest.skip(k));
        assert(all[0] == rest.take(k));
        assert forall|i: int| 0 <= i < all.len() implies (#[trigger] all[i]).len() > 0 by {
            if i > 0 {
                assert(all[i] == later[i - 1]);
            }
        }
        assert forall|i: int, j: int|
            0 <= i < all.len() && 0 <= j < all[i].len() implies !is_space(#[trigger] all[i][j]) by {
            if i == 0 {
                assert(all[0][j] == rest[j]);
            } else {
                assert(all[i] == later[i - 1]);
            }
        }
    }
}

/// The pieces that a list of index pairs cuts out of `chars`.
pub open spec fn pieces(chars: Seq<char>, bounds: Seq<(usize, usize)>) -> Seq<Seq<char>> {
    Seq::new(bounds.len(), |i: int| chars.subrange(bounds[i].0 as int, bounds[i].1 as int))
}

/// Whether every pair of `bounds` is an ordered range inside `from..to`.
pub open spec fn within(bounds: Seq<(usize, usize)>, from: int, to: int) -> bool {
    forall|i: int| 0 <= i < bounds.len() ==> from <= (#[trigger] bounds[i]).0 <= bounds[i].1 <= to
}

/// Tests a character for white space.
pub fn is_whitespace(c: char) -> (b: bool)
    ensures
        b == is_space(c),
{
    let n: u32 = c as u32;
    (0x09 <= n && n <= 0x0D) || n == 0x20 || n == 0x85 || n == 0xA0 || n == 0x1680 || (0x2000 <= n
        && n <= 0x200A) || n == 0x2028 || n == 0x2029 || n == 0x202F || n == 0x205F || n == 0x3000
}

/// The characters of `s`, in order.
pub fn chars_of(s: &str) -> (v: Vec<char>)
    ensures
        v@ == s@,
{
    let mut v: Vec<char> = Vec::new();
    for c in it: s.chars()
        invariant
            v@ == it.seq().take(it.index() as int),
            it.seq() == s@,
    {
        v.push(c);
    }
    v
}

/// Runs forward from `from` over characters of `class`, no further than `to`,
/// and returns where the run ends.
pub fn scan(chars: &[char], from: usize, to: usize, class: CharClass) -> (end: usize)
    requires
        from <= to <= chars@.len(),
    ensures
        from <= end <= to,
        end == from + run_len(chars@.subrange(from as int, to as int), class),
{
    let mut i: usize = from;
    while i < to && class.contains(chars[i])
        invariant
            from <= i <= to <= chars@.len(),
            forall|j: int| from <= j < i ==> class.has(#[trigger] chars@[j]),
        decreases to - i,
    {
        i += 1;
    }
    proof {
        let s = chars@.subrange(from as int, to as int);
        assert forall|j: int| 0 <= j < i - from implies class.has(#[trigger] s[j]) by {
            assert(s[j] == chars@[from + j]);
        }
        lemma_run_len_is(s, class, i - from);
    }
    i
}

/// Runs backward from `to` over characters of `class`, no further than
/// `from`, and returns where the run begins.
pub fn scan_back(chars: &[char], from: usize, to: usize, class: CharClass) -> (start: usize)
    requires
        from <= to <= chars@.len(),
    ensures
        from <= start <= to,
        start == to - back_run_len(chars@.subrange(from as int, to as int), class),
{
    let mut i: usize = to;
    while i > from && class.contains(chars[i - 1])
        invariant
            from <= i <= to <= chars@.len(),
            forall|j: int| i <= j < to ==> class.has(#[trigger] chars@[j]),
        decreases i - from,
    {
        i -= 1;
    }
    proof {
        let s = chars@.subrange(from as int, to as int);
        assert forall|j: int| s.len() - (to - i) <= j < s.len() implies class.has(
            #[trigger] s[j],
        ) by {
            assert(s[j] == chars@[from + j]);
        }
        lemma_back_run_len_is(s, class, to - i);
    }
    i
}

/// Bounds of what is left of `chars[from..to]` once the white space at
/// either end is gone.
pub fn trim(chars: &[char], from: usize, to: usize) -> (r: (usize, usize))
    requires
        from <= to <= chars@.len(),
    ensures
        from <= r.0 <= r.1 <= to,
        chars@.subrange(r.0 as int, r.1 as int) == trimmed(chars@.subrange(from as int, to as int)),
{
    let a = scan(chars, from, to, CharClass::Space);
    let b = scan_back(chars, a, to, CharClass::Space);
    proof {
        let s = chars@.subrange(from as int, to as int);
        assert(trim_start(s) =~= chars@.subrange(a as int, to as int));
        assert(trim_end(trim_start(s)) =~= chars@.subrange(a as int, b as int));
    }
    (a, b)
}

/// Cuts `chars[from..to]` at every `sep` and returns the bounds of the
/// pieces.
pub fn split_bounds(chars: &[char], from: usize, to: usize, sep: char) -> (out: Vec<(usize, usize)>)
    requires
        from <= to <= chars@.len(),
    ensures
        within(out@, from as int, to as int),
        pieces(chars@, out@) == split(chars@.subrange(from as int, to as int), sep),
{
    let class = CharClass::Except(sep);
    let ghost whole = split(chars@.subrange(from as int, to as int), sep);
    let mut out: Vec<(usize, usize)> = Vec::new();
    let mut start: usize = from;
    let mut end: usize = scan(chars, start, to, class);
    proof {
        assert(pieces(chars@, out@) + split(chars@.subrange(start as int, to as int), sep) =~= whole);
    }
    while end < to
        invariant
            from <= start <= end <= to <= chars@.len(),
            class == CharClass::Except(sep),
            end == start + run_len(chars@.subrange(start as int, to as int), class),
            within(out@, from as int, to as int),
            pieces(chars@, out@) + split(chars@.subrange(start as int, to as int), sep) == whole,
        decreases to - start,
    {
        proof {
            let s = chars@.subrange(start as int, to as int);
            let k = end - start;
            assert(s.take(k) =~= chars@.subrange(start as int, end as int));
            assert(s.skip(k + 1) =~= chars@.subrange(end + 1, to as int));
            assert(pieces(chars@, out@.push((start, end))) =~= pieces(chars@, out@).push(
                chars@.subrange(start as int, end as int),
            ));
            assert(pieces(chars@, out@).push(s.take(k)) + split(s.skip(k + 1), sep) =~= pieces(
                chars@,
                out@,
            ) + split(s, sep));
        }
        out.push((start, end));
        start = end + 1;
        end = scan(chars, start, to, class);
    }
    proof {
        let s = chars@.subrange(start as int, to as int);
        assert(pieces(chars@, out@.push((start, end))) =~= pieces(chars@, out@).push(s));
        assert(pieces(chars@, out@).push(s) =~= pieces(chars@, out@) + split(s, sep));
    }
    out.push((start, end));
    out
}

/// Bounds of the lines of `chars`.
pub fn line_bounds(chars: &[char]) -> (out: Vec<(usize, usize)>)
    ensures
        within(out@, 0, chars@.len() as int),
        pieces(chars@, out@) == lines_of(chars@),
{
    let mut out = split_bounds(chars, 0, chars.len(), '\n');
    proof {
        assert(chars@.subrange(0, chars@.len() as int) =~= chars@);
        lemma_split(chars@, '\n');
        assert(pieces(chars@, out@).len() == out@.len());
    }
    let last = out[out.len() - 1];
    if last.0 == last.1 {
        proof {
            assert(pieces(chars@, out@.drop_last()) =~= pieces(chars@, out@).drop_last());
        }
        out.pop();
    }
    out
}

/// Finds the maximal runs of `chars[from..to]` that hold no white space and
/// returns their bounds.
pub fn token_bounds(chars: &[char], from: usize, to: usize) -> (out: Vec<(usize, usize)>)
    requires
        from <= to <= chars@.len(),
    ensures
        within(out@, from as int, to as int),
        pieces(chars@, out@) == tokens(chars@.subrange(from as int, to as int)),
{
    let ghost whole = tokens(chars@.subrange(from as int, to as int));
    let mut out: Vec<(usize, usize)> = Vec::new();
    let mut pos: usize = from;
    let mut start: usize = scan(chars, pos, to, CharClass::Space);
    proof {
        assert(pieces(chars@, out@) + tokens(chars@.subrange(pos as int, to as int)) =~= whole);
    }
    while start < to
        invariant
            from <= pos <= start <= to <= chars@.len(),
            start == pos + run_len(chars@.subrange(pos as int, to as int), CharClass::Space),
            within(out@, from as int, to as int),
            pieces(chars@, out@) + tokens(chars@.subrange(pos as int, to as int)) == whole,
        decreases to - start,
    {
        let end = scan(chars, start, to, CharClass::Word);
        proof {
            let s = chars@.subrange(pos as int, to as int);
            let rest = chars@.subrange(start as int, to as int);
            let k = end - start;
            assert(trim_start(s) =~= rest);
            lemma_run_len(s, CharClass::Space);
            assert(s[start - pos] == rest[0]);
            assert(k > 0);
            assert(rest.take(k) =~= chars@.subrange(start as int, end as int));
            assert(rest.skip(k) =~= chars@.subrange(end as int, to as int));
            assert(pieces(chars@, out@.push((start, end))) =~= pieces(chars@, out@).push(
                chars@.subrange(start as int, end as int),
            ));
            assert(pieces(chars@, out@).push(rest.take(k)) + tokens(rest.skip(k)) =~= pieces(
                chars@,
                out@,
            ) + tokens(s));
        }
        out.push((start, end));
        pos = end;
        start = scan(chars, pos, to, CharClass::Space);
    }
    proof {
        let s = chars@.subrange(pos as int, to as int);
        assert(trim_start(s) =~= Seq::<char>::empty());
        assert(tokens(s) =~= Seq::<Seq<char>>::empty());
        assert(pieces(chars@, out@) + tokens(s) =~= pieces(chars@, out@));
    }
    out
}

/// Whether `chars[from..to]` spells `word`.
pub fn text_is(chars: &[char], from: usize, to: usize, word: &str) -> (b: bool)
    requires
        from <= to <= chars@.len(),
    ensures
        b == (chars@.subrange(from as int, to as int) == word@),
{
    let ghost target = chars@.subrange(from as int, to as int);
    let mut i: usize = from;
    let mut same = true;
    for c in it: word.chars()
        invariant
            it.seq() == word@,
            from <= i <= to <= chars@.len(),
            target == chars@.subrange(from as int, to as int),
            same ==> i - from == it.index() && chars@.subrange(from as int, i as int)
                == word@.take(it.index() as int),
            !same ==> target != word@,
    {
        if same {
            if i < to && chars[i] == c {
                proof {
                    assert(chars@.subrange(from as int, i + 1) =~= chars@.subrange(
                        from as int,
                        i as int,
                    ).push(c));
                    assert(word@.take(it.index() + 1) =~= word@.take(it.index() as int).push(c));
                }
                i += 1;
            } else {
                proof {
                    if i < to {
                        assert(target[i - from] == chars@[i as int]);
                    }
                }
                same = false;
            }
        }
    }
    proof {
        if same {
            assert(word@.take(word@.len() as int) =~= word@);
            if i == to {
                assert(target =~= word@);
            }
        }
    }
    same && i == to
}

/// `String::push` appends the given character to the end of the string.
pub assume_specification[ String::push ](text: &mut String, ch: char)
    ensures
        final(text)@ == old(text)@.push(ch),
;

/// The text `chars[from..to]` as a `String`.
pub fn text_between(chars: &[char], from: usize, to: usize) -> (s: String)
    requires
        from <= to <= chars@.len(),
    ensures
        s@ == chars@.subrange(from as int, to as int),
{
    let mut s = String::new();
    let mut i: usize = from;
    while i < to
        invariant
            from <= i <= to <= chars@.len(),
            s@ == chars@.subrange(from as int, i as int),
        decreases to - i,
    {
        proof {
            assert(chars@.subrange(from as int, i + 1) =~= chars@.subrange(
                from as int,
                i as int,
            ).push(chars@[i as int]));
        }
        s.push(chars[i]);
        i += 1;
    }
    s
}

} // verus!
