//! The lines of a merged text, and how a merge is undone.
use crate::merge::{LineRange, MergeError, Replacement};
use vstd::prelude::*;

verus! {

/// The line can stand in a text: it holds no newline, and does not end with a carriage
/// return, which would be taken for a part of the line end.
pub open spec fn is_line(line: Seq<char>) -> bool {
    !line.contains('\n') && (line.len() > 0 ==> line.last() != '\r')
}

/// The lines can be told apart in their text: each can stand in a text, and the last is not
/// empty unless a newline follows it.
pub open spec fn are_lines(lines: Seq<Seq<char>>, newline: bool) -> bool {
    &&& forall|i: int| 0 <= i < lines.len() ==> is_line(#[trigger] lines[i])
    &&& if lines.len() == 0 {
        !newline
    } else {
        newline || lines.last().len() > 0
    }
}

/// A text gives back the lines it was made of.
pub proof fn texts_give_back_their_lines(lines: Seq<Seq<char>>, newline: bool)
    requires
        are_lines(lines, newline),
    ensures
        crate::text::lines(crate::merge::text_of_lines(lines, newline)) == lines,
    decreases lines.len(),
{
    let end = if newline {
        seq!['\n']
    } else {
        Seq::<char>::empty()
    };
    let text = crate::merge::text_of_lines(lines, newline);
    assert(text == crate::text::join(lines, seq!['\n']) + end);
    if lines.len() == 0 {
        assert(text == Seq::<char>::empty());
        assert(lines == Seq::<Seq<char>>::empty());
    } else {
        let first = lines[0];
        assert(is_line(first));
        assert forall|i: int| 0 <= i < first.len() implies first[i] != '\n' by {
            assert(first.contains(first[i]));
        }
        if lines.len() == 1 && !newline {
            assert(text == first);
            crate::text::lemma_find_is(text, '\n', text.len() as int);
            assert(crate::text::lines(text) == seq![first]);
            assert(lines == seq![first]);
        } else {
            let rest = lines.skip(1);
            let after = if lines.len() == 1 {
                Seq::<char>::empty()
            } else {
                crate::merge::text_of_lines(rest, newline)
            };
            assert(text == first + seq!['\n'] + after);
            crate::text::lemma_find_is(text, '\n', first.len() as int);
            assert(text.take(first.len() as int) == first);
            assert(text.skip((first.len() + 1) as int) == after);
            assert(crate::text::without_cr(first) == first);
            assert(crate::text::lines(text) == seq![first] + crate::text::lines(after));
            if lines.len() == 1 {
                assert(crate::text::lines(after) == Seq::<Seq<char>>::empty());
                assert(lines == seq![first] + Seq::<Seq<char>>::empty());
            } else {
                assert forall|i: int| 0 <= i < rest.len() implies is_line(#[trigger] rest[i]) by {
                    assert(rest[i] == lines[i + 1]);
                }
                assert(rest.last() == lines.last());
                texts_give_back_their_lines(rest, newline);
                assert(lines == seq![first] + rest);
            }
        }
    }
}

/// A merge of one range gives the lines with that range replaced.
proof fn lemma_merge_one(original: Seq<char>, range: LineRange, chunk: Seq<char>)
    requires
        1 <= range.start <= range.end <= crate::text::lines(original).len(),
    ensures
        crate::merge::merged(original, seq![range], seq![chunk]) == Ok::<Seq<char>, MergeError>(
            crate::merge::text_of_lines(
                crate::merge::replaced(
                    crate::text::lines(original),
                    (range, crate::text::lines(chunk)),
                ),
                crate::merge::ends_with_newline(original),
            ),
        ),
{
    let lines = crate::text::lines(original);
    let one: Replacement = (range, crate::text::lines(chunk));
    let list = crate::merge::replacements(seq![range], seq![chunk]);
    assert(list == seq![one]);
    assert(list.drop_last() == Seq::<Replacement>::empty());
    assert(crate::merge::bottom_up(list.drop_last()) == Seq::<Replacement>::empty());
    assert(crate::merge::bottom_up(list) == seq![one]);
    assert(seq![one].skip(1) == Seq::<Replacement>::empty());
    assert(crate::merge::replaced_all(
        crate::merge::replaced(lines, one),
        Seq::<Replacement>::empty(),
    ) == crate::merge::replaced(lines, one));
    crate::merge_laws::accepted_iff_in_bounds(lines.len(), seq![range], 1);
    assert(crate::merge_laws::in_bounds(seq![range], lines.len()));
}

/// The lines of a merged text are the lines of the original with each range replaced by the
/// lines of its chunk, and every other line as it was.
pub proof fn merged_text_has_the_substituted_lines(
    original: Seq<char>,
    ranges: Seq<LineRange>,
    chunks: Seq<Seq<char>>,
)
    requires
        ranges.len() > 0,
        chunks.len() == ranges.len(),
        crate::merge_laws::in_bounds(ranges, crate::text::lines(original).len()),
        crate::merge_laws::ascending(ranges),
        are_lines(
            crate::merge_laws::substituted(
                crate::text::lines(original),
                0,
                crate::merge::replacements(ranges, chunks),
            ),
            crate::merge::ends_with_newline(original),
        ),
    ensures
        crate::merge::merged(original, ranges, chunks) matches Ok(text) && crate::text::lines(text)
            == crate::merge_laws::substituted(
            crate::text::lines(original),
            0,
            crate::merge::replacements(ranges, chunks),
        ),
{
    crate::merge_laws::ascending_ranges_are_replaced_in_place(original, ranges, chunks);
    texts_give_back_their_lines(
        crate::merge_laws::substituted(
            crate::text::lines(original),
            0,
            crate::merge::replacements(ranges, chunks),
        ),
        crate::merge::ends_with_newline(original),
    );
}

/// The range that the lines of a chunk take up once it has replaced a range.
pub open spec fn taken_up(range: LineRange, chunk_lines: nat) -> LineRange {
    LineRange { start: range.start, end: (range.start + chunk_lines - 1) as usize }
}

/// Merging the old lines back into a merged text gives the original. Carriage returns at
/// line ends do not survive a merge, so the original must have none; and the chunk must
/// have lines, for otherwise there is nothing left to replace.
pub proof fn a_merge_can_be_undone(
    original: Seq<char>,
    range: LineRange,
    chunk: Seq<char>,
    old_lines: Seq<char>,
)
    requires
        crate::merge_laws::no_crlf(original),
        1 <= range.start <= range.end <= crate::text::lines(original).len(),
        crate::text::lines(chunk).len() > 0,
        range.start + crate::text::lines(chunk).len() - 1 <= usize::MAX,
        are_lines(
            crate::merge::replaced(
                crate::text::lines(original),
                (range, crate::text::lines(chunk)),
            ),
            crate::merge::ends_with_newline(original),
        ),
        crate::text::lines(old_lines) == crate::text::lines(original).subrange(
            range.start - 1,
            range.end as int,
        ),
    ensures
        crate::merge::merged(original, seq![range], seq![chunk]) matches Ok(text)
            && crate::merge::merged(
            text,
            seq![taken_up(range, crate::text::lines(chunk).len())],
            seq![old_lines],
        ) == Ok::<Seq<char>, MergeError>(original),
{
    let lines = crate::text::lines(original);
    let new = crate::text::lines(chunk);
    let newline = crate::merge::ends_with_newline(original);
    let replaced = crate::merge::replaced(lines, (range, new));
    let text = crate::merge::text_of_lines(replaced, newline);
    let back = taken_up(range, new.len());
    lemma_merge_one(original, range, chunk);
    texts_give_back_their_lines(replaced, newline);
    assert(replaced.len() > 0);
    assert(crate::merge::ends_with_newline(text) == newline) by {
        if newline {
            assert(text.last() == '\n');
        } else {
            assert(text == crate::text::join(replaced, seq!['\n']));
            crate::merge_laws::lemma_join_last(replaced);
        }
    }
    lemma_merge_one(text, back, old_lines);
    assert(crate::merge::replaced(replaced, (back, crate::text::lines(old_lines))) == lines);
    crate::merge_laws::lines_give_back_the_text(original);
}

} // verus!
