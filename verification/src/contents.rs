//! The mapping format: one file name per line, then the packages that
//! install the file, separated by commas.

use crate::package::{file_views, PackageFile, PackageFileView};
use crate::text::{
    chars_of, lemma_split, line_bounds, lines_of, pieces, split, split_bounds, text_between,
    token_bounds, tokens, trim, trimmed, within,
};
use vstd::prelude::*;

verus! {

/// The pairs that the package list `packages` gives for the file `filename`:
/// one for each piece between commas, trimmed, empty pieces included.
pub open spec fn pairs_for(filename: Seq<char>, packages: Seq<char>) -> Seq<PackageFileView> {
    let names = split(packages, ',');
    Seq::new(names.len(), |i: int| PackageFileView { filename, package: trimmed(names[i]) })
}

/// The pairs that a line states. A line counts only if white space cuts it
/// into exactly two tokens: the file name and the package list.
pub open spec fn pairs_of(line: Seq<char>) -> Seq<PackageFileView> {
    let fields = tokens(line);
    if fields.len() == 2 {
        pairs_for(fields[0], fields[1])
    } else {
        Seq::empty()
    }
}

/// The pairs that the lines state, in order.
pub open spec fn all_pairs(lines: Seq<Seq<char>>) -> Seq<PackageFileView>
    decreases lines.len(),
{
    if lines.len() == 0 {
        Seq::empty()
    } else {
        pairs_of(lines[0]) + all_pairs(lines.drop_first())
    }
}

/// A line that white space does not cut into exactly two tokens states no
/// pair.
pub proof fn lemma_other_lines_state_nothing(line: Seq<char>)
    requires
        tokens(line).len() != 2,
    ensures
        pairs_of(line).len() == 0,
{
}

/// A line of two tokens states at least one pair: one for each piece of its
/// package list, in order, each under the file name of the line.
pub proof fn lemma_mapping_line(line: Seq<char>)
    requires
        tokens(line).len() == 2,
    ensures
        pairs_of(line).len() == split(tokens(line)[1], ',').len(),
        pairs_of(line).len() >= 1,
        forall|i: int|
            0 <= i < pairs_of(line).len() ==> (#[trigger] pairs_of(line)[i]) == (PackageFileView {
                filename: tokens(line)[0],
                package: trimmed(split(tokens(line)[1], ',')[i]),
            }),
{
    lemma_split(tokens(line)[1], ',');
}

/// Reads the pairs of the line `text[start..end]` and appends them to `out`.
pub fn read_pairs(text: &[char], start: usize, end: usize, out: &mut Vec<PackageFile>)
    requires
        start <= end <= text@.len(),
    ensures
        file_views(final(out)@) == file_views(old(out)@) + pairs_of(
            text@.subrange(start as int, end as int),
        ),
{
    let ghost before = file_views(out@);
    let ghost line = text@.subrange(start as int, end as int);
    let fields = token_bounds(text, start, end);
    if fields.len() == 2 {
        let (name_from, name_to) = fields[0];
        let (list_from, list_to) = fields[1];
        let names = split_bounds(text, list_from, list_to, ',');
        let ghost filename = text@.subrange(name_from as int, name_to as int);
        let ghost list = text@.subrange(list_from as int, list_to as int);
        proof {
            assert(tokens(line)[0] == filename);
            assert(tokens(line)[1] == list);
            assert(pieces(text@, names@).len() == names@.len());
        }
        let mut i: usize = 0;
        while i < names.len()
            invariant
                i <= names.len(),
                name_from <= name_to <= text@.len(),
                filename == text@.subrange(name_from as int, name_to as int),
                within(names@, list_from as int, list_to as int),
                list_to <= text@.len(),
                pieces(text@, names@) == split(list, ','),
                file_views(out@) == before + pairs_for(filename, list).take(i as int),
            decreases names.len() - i,
        {
            let (from, to) = names[i];
            let (from, to) = trim(text, from, to);
            let pair = PackageFile {
                filename: text_between(text, name_from, name_to),
                package: text_between(text, from, to),
            };
            proof {
                assert(pieces(text@, names@)[i as int] == split(list, ',')[i as int]);
                assert(pair@ == pairs_for(filename, list)[i as int]);
                assert(file_views(out@.push(pair)) =~= file_views(out@).push(pair@));
                assert(pairs_for(filename, list).take(i + 1) =~= pairs_for(filename, list).take(
                    i as int,
                ).push(pair@));
                assert(before + pairs_for(filename, list).take(i as int).push(pair@) =~= (before
                    + pairs_for(filename, list).take(i as int)).push(pair@));
            }
            out.push(pair);
            i += 1;
        }
        proof {
            assert(pairs_for(filename, list).take(i as int) =~= pairs_for(filename, list));
        }
    } else {
        proof {
            assert(pieces(text@, fields@).len() == fields@.len());
            assert(before + pairs_of(line) =~= before);
        }
    }
}

/// The pairs that one line states.
pub fn parse_contents_line(line: &str) -> (out: Vec<PackageFile>)
    ensures
        file_views(out@) == pairs_of(line@),
        tokens(line@).len() != 2 ==> out@.len() == 0,
{
    let chars = chars_of(line);
    let mut out: Vec<PackageFile> = Vec::new();
    proof {
        assert(chars@.subrange(0, chars@.len() as int) =~= line@);
        assert(file_views(out@) + pairs_of(line@) =~= pairs_of(line@));
    }
    read_pairs(chars.as_slice(), 0, chars.len(), &mut out);
    assert(file_views(out@).len() == out@.len());
    out
}

/// The pairs that the lines of `text` state, in order.
pub fn parse_contents(text: &str) -> (out: Vec<PackageFile>)
    ensures
        file_views(out@) == all_pairs(lines_of(text@)),
{
    let chars = chars_of(text);
    let bounds = line_bounds(chars.as_slice());
    let mut out: Vec<PackageFile> = Vec::new();
    let ghost lines = lines_of(text@);
    let mut i: usize = 0;
    proof {
        assert(lines.skip(0) =~= lines);
        assert(file_views(out@) + all_pairs(lines.skip(0)) =~= all_pairs(lines));
    }
    while i < bounds.len()
        invariant
            i <= bounds.len(),
            chars@ == text@,
            lines == pieces(chars@, bounds@),
            within(bounds@, 0, chars@.len() as int),
            file_views(out@) + all_pairs(lines.skip(i as int)) == all_pairs(lines),
        decreases bounds.len() - i,
    {
        let (from, to) = bounds[i];
        let ghost before = file_views(out@);
        let ghost rest = lines.skip(i as int);
        proof {
            assert(rest[0] == chars@.subrange(from as int, to as int));
            assert(rest.drop_first() =~= lines.skip(i + 1));
        }
        read_pairs(chars.as_slice(), from, to, &mut out);
        proof {
            assert((before + pairs_of(rest[0])) + all_pairs(lines.skip(i + 1)) =~= before + (
            pairs_of(rest[0]) + all_pairs(lines.skip(i + 1))));
        }
        i += 1;
    }
    proof {
        assert(lines.skip(i as int) =~= Seq::<Seq<char>>::empty());
        assert(file_views(out@) + Seq::<PackageFileView>::empty() =~= file_views(out@));
    }
    out
}

} // verus!
