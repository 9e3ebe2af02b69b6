//! What a merge makes of the lines of a file, in terms of the ranges and chunks alone.
use crate::merge::{LineRange, MergeError, Replacement};
use vstd::prelude::*;

verus! {

/// The lines from `from` on, with each range replaced by the lines of its chunk.
pub open spec fn spliced(
    lines: Seq<Seq<char>>,
    from: int,
    ranges: Seq<LineRange>,
    chunks: Seq<Seq<char>>,
) -> Seq<Seq<char>>
    decreases ranges.len(),
{
    if ranges.len() == 0 {
        lines.skip(from)
    } else {
        lines.subrange(from, ranges[0].start - 1) + crate::text::lines(chunks[0]) + spliced(
            lines,
            ranges[0].end as int,
            ranges.skip(1),
            chunks.skip(1),
        )
    }
}

/// Lines between newlines, and one behind the last if `newline` says so.
pub open spec fn joined(lines: Seq<Seq<char>>, newline: bool) -> Seq<char>
    decreases lines.len(),
{
    if lines.len() == 0 {
        if newline {
            seq!['\n']
        } else {
            seq![]
        }
    } else if lines.len() == 1 {
        if newline {
            lines[0].push('\n')
        } else {
            lines[0]
        }
    } else {
        lines[0].push('\n') + joined(lines.skip(1), newline)
    }
}

/// The text ends with a newline.
pub open spec fn has_newline(text: Seq<char>) -> bool {
    text.len() > 0 && text[text.len() - 1] == '\n'
}

pub proof fn lemma_joined(lines: Seq<Seq<char>>, newline: bool)
    ensures
        crate::merge::text_of_lines(lines, newline) == joined(lines, newline),
    decreases lines.len(),
{
    let text = crate::merge::text_of_lines(lines, newline);
    let end = if newline {
        seq!['\n']
    } else {
        Seq::<char>::empty()
    };
    assert(text == crate::text::join(lines, seq!['\n']) + end);
    if lines.len() == 0 {
        assert(text == joined(lines, newline));
    } else if lines.len() == 1 {
        assert(text == joined(lines, newline));
    } else {
        let rest = lines.skip(1);
        lemma_joined(rest, newline);
        assert(text == lines[0].push('\n') + crate::merge::text_of_lines(rest, newline));
    }
}

proof fn lemma_spliced(
    lines: Seq<Seq<char>>,
    from: int,
    ranges: Seq<LineRange>,
    chunks: Seq<Seq<char>>,
)
    requires
        chunks.len() == ranges.len(),
    ensures
        crate::merge_laws::substituted(
            lines,
            from,
            crate::merge::replacements(ranges, chunks),
        ) == spliced(lines, from, ranges, chunks),
    decreases ranges.len(),
{
    let list = crate::merge::replacements(ranges, chunks);
    if ranges.len() > 0 {
        let rest = crate::merge::replacements(ranges.skip(1), chunks.skip(1));
        assert(list.skip(1) == rest);
        lemma_spliced(lines, ranges[0].end as int, ranges.skip(1), chunks.skip(1));
    }
}

/// Where ranges follow one another, the merged text is the lines of the original outside the
/// ranges, with the lines of each chunk, as they are, in the place of its range. It ends
/// with a newline if the original does.
pub proof fn chunks_take_the_place_of_their_ranges(
    original: Seq<char>,
    ranges: Seq<LineRange>,
    chunks: Seq<Seq<char>>,
)
    requires
        ranges.len() > 0,
        chunks.len() == ranges.len(),
        forall|i: int|
            0 <= i < ranges.len() ==> 1 <= (#[trigger] ranges[i]).start <= ranges[i].end
                <= crate::text::lines(original).len(),
        forall|i: int, j: int|
            0 <= i < j < ranges.len() ==> (#[trigger] ranges[i]).end < (#[trigger] ranges[j]).start,
    ensures
        crate::merge::merged(original, ranges, chunks) == Ok::<Seq<char>, MergeError>(
            joined(
                spliced(crate::text::lines(original), 0, ranges, chunks),
                has_newline(original),
            ),
        ),
        crate::merge::fits(original, ranges, chunks),
{
    let lines = crate::text::lines(original);
    crate::merge_laws::ascending_ranges_are_replaced_in_place(original, ranges, chunks);
    crate::merge_laws::disjoint_ranges_fit(original, ranges, chunks);
    lemma_spliced(lines, 0, ranges, chunks);
    lemma_joined(spliced(lines, 0, ranges, chunks), has_newline(original));
}

/// The lines of the merged text are those lines, if each can stand in a text: it does not end
/// with a carriage return, and the last is not empty unless a newline follows it.
pub proof fn merged_lines_are_those_of_original_and_chunks(
    original: Seq<char>,
    ranges: Seq<LineRange>,
    chunks: Seq<Seq<char>>,
)
    requires
        ranges.len() > 0,
        chunks.len() == ranges.len(),
        forall|i: int|
            0 <= i < ranges.len() ==> 1 <= (#[trigger] ranges[i]).start <= ranges[i].end
                <= crate::text::lines(original).len(),
        forall|i: int, j: int|
            0 <= i < j < ranges.len() ==> (#[trigger] ranges[i]).end < (#[trigger] ranges[j]).start,
        ({
            let after = spliced(crate::text::lines(original), 0, ranges, chunks);
            &&& forall|i: int|
                0 <= i < after.len() && (#[trigger] after[i]).len() > 0 ==> after[i][after[i].len()
                    - 1] != '\r'
            &&& after.len() > 0
            &&& has_newline(original) || after[after.len() - 1].len() > 0
        }),
    ensures
        crate::merge::merged(original, ranges, chunks) is Ok,
        crate::text::lines(crate::merge::merged(original, ranges, chunks)->Ok_0) == spliced(
            crate::text::lines(original),
            0,
            ranges,
            chunks,
        ),
{
    let lines = crate::text::lines(original);
    let after = spliced(lines, 0, ranges, chunks);
    chunks_take_the_place_of_their_ranges(original, ranges, chunks);
    crate::text::lemma_lines_have_no_newline(original);
    lemma_spliced_has_no_newlines(lines, 0, ranges, chunks);
    assert forall|i: int| 0 <= i < after.len() implies crate::undo_laws::is_line(
        #[trigger] after[i],
    ) by {}
    crate::undo_laws::texts_give_back_their_lines(after, has_newline(original));
    lemma_joined(after, has_newline(original));
}

proof fn lemma_spliced_has_no_newlines(
    lines: Seq<Seq<char>>,
    from: int,
    ranges: Seq<LineRange>,
    chunks: Seq<Seq<char>>,
)
    requires
        0 <= from <= lines.len(),
        chunks.len() == ranges.len(),
        forall|i: int| 0 <= i < lines.len() ==> !(#[trigger] lines[i]).contains('\n'),
        forall|i: int|
            0 <= i < ranges.len() ==> from < (#[trigger] ranges[i]).start <= ranges[i].end
                <= lines.len(),
        forall|i: int, j: int|
            0 <= i < j < ranges.len() ==> (#[trigger] ranges[i]).end < (#[trigger] ranges[j]).start,
    ensures
        forall|i: int|
            0 <= i < spliced(lines, from, ranges, chunks).len() ==> !(#[trigger] spliced(
                lines,
                from,
                ranges,
                chunks,
            )[i]).contains('\n'),
    decreases ranges.len(),
{
    let all = spliced(lines, from, ranges, chunks);
    if ranges.len() == 0 {
        assert forall|i: int| 0 <= i < all.len() implies !(#[trigger] all[i]).contains('\n') by {
            assert(all[i] == lines[from + i]);
        }
    } else {
        let rest = ranges.skip(1);
        assert forall|i: int| 0 <= i < rest.len() implies ranges[0].end < (
        #[trigger] rest[i]).start <= rest[i].end <= lines.len() by {
            assert(rest[i] == ranges[i + 1]);
            assert(ranges[0].end < ranges[i + 1].start);
        }
        assert forall|i: int, j: int| 0 <= i < j < rest.len() implies (#[trigger] rest[i]).end < (
        #[trigger] rest[j]).start by {
            assert(rest[i] == ranges[i + 1] && rest[j] == ranges[j + 1]);
        }
        lemma_spliced_has_no_newlines(lines, ranges[0].end as int, rest, chunks.skip(1));
        crate::text::lemma_lines_have_no_newline(chunks[0]);
        let head = lines.subrange(from, ranges[0].start - 1);
        let middle = crate::text::lines(chunks[0]);
        let tail = spliced(lines, ranges[0].end as int, rest, chunks.skip(1));
        assert forall|i: int| 0 <= i < all.len() implies !(#[trigger] all[i]).contains('\n') by {
            if i < head.len() {
                assert(all[i] == lines[from + i]);
            } else if i < head.len() + middle.len() {
                assert(all[i] == middle[i - head.len()]);
            } else {
                assert(all[i] == tail[i - head.len() - middle.len()]);
            }
        }
    }
}

/// The lines after the ranges at these positions were replaced, one after the other.
pub open spec fn spliced_in_turn(
    lines: Seq<Seq<char>>,
    order: Seq<int>,
    ranges: Seq<LineRange>,
    chunks: Seq<Seq<char>>,
) -> Seq<Seq<char>>
    decreases order.len(),
{
    if order.len() == 0 {
        lines
    } else {
        let range = ranges[order[0]];
        spliced_in_turn(
            lines.take(range.start - 1) + crate::text::lines(chunks[order[0]]) + lines.skip(
                range.end as int,
            ),
            order.skip(1),
            ranges,
            chunks,
        )
    }
}

/// Each range ends within the lines that are there when its turn comes.
pub open spec fn ends_in_turn(
    lines: Seq<Seq<char>>,
    order: Seq<int>,
    ranges: Seq<LineRange>,
    chunks: Seq<Seq<char>>,
) -> bool
    decreases order.len(),
{
    if order.len() == 0 {
        true
    } else {
        let range = ranges[order[0]];
        range.end <= lines.len() && ends_in_turn(
            lines.take(range.start - 1) + crate::text::lines(chunks[order[0]]) + lines.skip(
                range.end as int,
            ),
            order.skip(1),
            ranges,
            chunks,
        )
    }
}

/// `order` names each position once: those of ranges that start lower first, and of ranges
/// that start at the same line the earlier first.
pub open spec fn is_bottom_up(order: Seq<int>, ranges: Seq<LineRange>) -> bool {
    &&& order.len() == ranges.len()
    &&& forall|k: int| 0 <= k < order.len() ==> 0 <= (#[trigger] order[k]) < ranges.len()
    &&& forall|k: int, l: int|
        0 <= k < l < order.len() ==> ranges[#[trigger] order[k]].start > ranges[#[trigger] order[l]].start
            || (ranges[order[k]].start == ranges[order[l]].start && order[k] < order[l])
}

/// Where to put a position into an order, behind all that come before it.
proof fn lemma_position(order: Seq<int>, ranges: Seq<LineRange>, start: int) -> (pos: int)
    requires
        forall|k: int, l: int|
            0 <= k < l < order.len() ==> ranges[#[trigger] order[k]].start
                >= ranges[#[trigger] order[l]].start,
    ensures
        0 <= pos <= order.len(),
        forall|k: int| pos <= k < order.len() ==> ranges[#[trigger] order[k]].start < start,
        forall|k: int| 0 <= k < pos ==> ranges[#[trigger] order[k]].start >= start,
    decreases order.len(),
{
    if order.len() == 0 || ranges[order.last()].start >= start {
        assert forall|k: int| 0 <= k < order.len() implies ranges[#[trigger] order[k]].start
            >= start by {
            if k < order.len() - 1 {
                assert(ranges[order[k]].start >= ranges[order[order.len() - 1]].start);
            }
        }
        order.len() as int
    } else {
        let init = order.drop_last();
        assert forall|k: int, l: int| 0 <= k < l < init.len() implies ranges[#[trigger] init[k]].start
            >= ranges[#[trigger] init[l]].start by {
            assert(init[k] == order[k] && init[l] == order[l]);
        }
        let pos = lemma_position(init, ranges, start);
        assert forall|k: int| pos <= k < order.len() implies ranges[#[trigger] order[k]].start
            < start by {
            if k < init.len() {
                assert(init[k] == order[k]);
            }
        }
        assert forall|k: int| 0 <= k < pos implies ranges[#[trigger] order[k]].start >= start by {
            assert(init[k] == order[k]);
        }
        pos
    }
}

proof fn lemma_bottom_up_order(ranges: Seq<LineRange>, list: Seq<Replacement>) -> (order: Seq<int>)
    requires
        list.len() == ranges.len(),
        forall|i: int| 0 <= i < list.len() ==> (#[trigger] list[i]).0 == ranges[i],
    ensures
        is_bottom_up(order, ranges),
        crate::merge::bottom_up(list) == Seq::new(order.len(), |k: int| list[order[k]]),
    decreases list.len(),
{
    if list.len() == 0 {
        let order = Seq::<int>::empty();
        assert(crate::merge::bottom_up(list) == Seq::new(order.len(), |k: int| list[order[k]]));
        order
    } else {
        let n = list.len() - 1;
        let init_ranges = ranges.drop_last();
        let init = list.drop_last();
        let before = lemma_bottom_up_order(init_ranges, init);
        let last = list.last();
        assert(last == list[n]);
        assert forall|k: int, l: int| 0 <= k < l < before.len() implies ranges[#[trigger] before[k]].start
            >= ranges[#[trigger] before[l]].start by {
            assert(init_ranges[before[k]] == ranges[before[k]]);
            assert(init_ranges[before[l]] == ranges[before[l]]);
        }
        let pos = lemma_position(before, ranges, ranges[n].start as int);
        let sorted = Seq::new(before.len(), |k: int| init[before[k]]);
        assert forall|k: int| pos <= k < sorted.len() implies sorted[k].0.start
            < last.0.start by {
            assert(ranges[before[k]].start < ranges[n].start);
            assert(init[before[k]] == list[before[k]]);
        }
        if pos > 0 {
            assert(ranges[before[pos - 1]].start >= ranges[n].start);
            assert(init[before[pos - 1]] == list[before[pos - 1]]);
        }
        crate::merge::lemma_place_at(sorted, last, pos);
        let order = before.insert(pos, n);
        assert(crate::merge::bottom_up(list) == sorted.insert(pos, last));
        let after = Seq::new(order.len(), |k: int| list[order[k]]);
        assert(sorted.insert(pos, last) == after) by {
            assert forall|k: int| 0 <= k < after.len() implies sorted.insert(pos, last)[k]
                == after[k] by {
                if k < pos {
                    assert(init[before[k]] == list[before[k]]);
                } else if k > pos {
                    assert(init[before[k - 1]] == list[before[k - 1]]);
                }
            }
        }
        assert forall|k: int, l: int| 0 <= k < l < order.len() implies ranges[#[trigger] order[k]].start
            > ranges[#[trigger] order[l]].start || (ranges[order[k]].start
            == ranges[order[l]].start && order[k] < order[l]) by {
            let k2 = if k < pos { k } else { k - 1 };
            let l2 = if l < pos { l } else { l - 1 };
            if k != pos && l != pos {
                assert(order[k] == before[k2] && order[l] == before[l2]);
                assert(init_ranges[before[k2]] == ranges[before[k2]]);
                assert(init_ranges[before[l2]] == ranges[before[l2]]);
            } else if k == pos {
                assert(order[l] == before[l2]);
                assert(ranges[before[l2]].start < ranges[n].start);
            } else {
                assert(order[k] == before[k2]);
                assert(ranges[before[k2]].start >= ranges[n].start);
                assert(before[k2] < n);
            }
        }
        order
    }
}

proof fn lemma_in_turn(
    lines: Seq<Seq<char>>,
    order: Seq<int>,
    ranges: Seq<LineRange>,
    chunks: Seq<Seq<char>>,
)
    requires
        chunks.len() == ranges.len(),
        forall|k: int| 0 <= k < order.len() ==> 0 <= (#[trigger] order[k]) < ranges.len(),
    ensures
        crate::merge::replaced_all(
            lines,
            Seq::new(
                order.len(),
                |k: int| crate::merge::replacements(ranges, chunks)[order[k]],
            ),
        ) == spliced_in_turn(lines, order, ranges, chunks),
        crate::merge::all_fit(
            lines,
            Seq::new(
                order.len(),
                |k: int| crate::merge::replacements(ranges, chunks)[order[k]],
            ),
        ) == ends_in_turn(lines, order, ranges, chunks),
    decreases order.len(),
{
    let all = crate::merge::replacements(ranges, chunks);
    let list = Seq::new(order.len(), |k: int| all[order[k]]);
    if order.len() > 0 {
        let rest = order.skip(1);
        assert(list.skip(1) == Seq::new(rest.len(), |k: int| all[rest[k]]));
        assert(list[0] == all[order[0]]);
        assert forall|k: int| 0 <= k < rest.len() implies 0 <= (#[trigger] rest[k])
            < ranges.len() by {
            assert(rest[k] == order[k + 1]);
        }
        lemma_in_turn(crate::merge::replaced(lines, list[0]), rest, ranges, chunks);
    }
}

/// Whether or not ranges overlap, they are replaced one after the other, by the lines of
/// their chunks as they are: the range that starts lowest in the file first, and of ranges
/// that start at the same line the one given first. They can be replaced so exactly if each
/// ends within the lines that are then there.
pub proof fn ranges_are_replaced_bottom_up(
    original: Seq<char>,
    ranges: Seq<LineRange>,
    chunks: Seq<Seq<char>>,
) -> (order: Seq<int>)
    requires
        ranges.len() > 0,
        chunks.len() == ranges.len(),
        forall|i: int|
            0 <= i < ranges.len() ==> 1 <= (#[trigger] ranges[i]).start <= ranges[i].end
                <= crate::text::lines(original).len(),
    ensures
        is_bottom_up(order, ranges),
        crate::merge::merged(original, ranges, chunks) == Ok::<Seq<char>, MergeError>(
            joined(
                spliced_in_turn(crate::text::lines(original), order, ranges, chunks),
                has_newline(original),
            ),
        ),
        crate::merge::fits(original, ranges, chunks) <==> ends_in_turn(
            crate::text::lines(original),
            order,
            ranges,
            chunks,
        ),
{
    let lines = crate::text::lines(original);
    let list = crate::merge::replacements(ranges, chunks);
    crate::merge_laws::accepted_iff_in_bounds(lines.len(), ranges, chunks.len());
    let order = lemma_bottom_up_order(ranges, list);
    lemma_in_turn(lines, order, ranges, chunks);
    lemma_joined(spliced_in_turn(lines, order, ranges, chunks), has_newline(original));
    order
}

/// Why a merge is refused: the first of these faults that there is, and of several ranges
/// with it the first.
pub proof fn refusals_name_the_first_fault(
    original: Seq<char>,
    ranges: Seq<LineRange>,
    chunks: Seq<Seq<char>>,
    i: int,
)
    ensures
        ({
            let result = crate::merge::merged(original, ranges, chunks);
            let total = crate::text::lines(original).len();
            let upright = forall|j: int|
                0 <= j < ranges.len() ==> (#[trigger] ranges[j]).start <= ranges[j].end;
            let reached = forall|j: int|
                0 <= j < ranges.len() ==> (#[trigger] ranges[j]).end <= total;
            &&& chunks.len() != ranges.len() ==> result == Err::<Seq<char>, MergeError>(
                MergeError::ChunkCountMismatch {
                    expected: ranges.len() as usize,
                    got: chunks.len() as usize,
                },
            )
            &&& chunks.len() == ranges.len() && 0 <= i < ranges.len() && ranges[i].start
                > ranges[i].end && (forall|j: int|
                0 <= j < i ==> (#[trigger] ranges[j]).start <= ranges[j].end) ==> result == Err::<
                Seq<char>,
                MergeError,
            >(MergeError::InvalidRange { start: ranges[i].start, end: ranges[i].end })
            &&& chunks.len() == ranges.len() && upright && 0 <= i < ranges.len() && ranges[i].end
                > total && (forall|j: int| 0 <= j < i ==> (#[trigger] ranges[j]).end <= total)
                ==> result == Err::<Seq<char>, MergeError>(
                MergeError::LineNotFound { line: ranges[i].end },
            )
            &&& chunks.len() == ranges.len() && upright && reached && 0 <= i < ranges.len()
                && ranges[i].start == 0 ==> result == Err::<Seq<char>, MergeError>(
                MergeError::LineNotFound { line: 0 },
            )
            &&& chunks.len() == 0 && ranges.len() == 0 ==> result == Ok::<
                Seq<char>,
                MergeError,
            >(original)
        }),
{
    let total = crate::text::lines(original).len();
    crate::merge::lemma_first_fault(ranges, crate::merge::Fault::Inverted, total);
    crate::merge::lemma_first_fault(ranges, crate::merge::Fault::Below, total);
    crate::merge::lemma_first_fault(ranges, crate::merge::Fault::Above, total);
    let inverted = crate::merge::first_fault(ranges, crate::merge::Fault::Inverted, total);
    let below = crate::merge::first_fault(ranges, crate::merge::Fault::Below, total);
    let above = crate::merge::first_fault(ranges, crate::merge::Fault::Above, total);
    if 0 <= i < ranges.len() {
        assert(crate::merge::has_fault(ranges[i], crate::merge::Fault::Inverted, total)
            == (ranges[i].start > ranges[i].end));
        assert(crate::merge::has_fault(ranges[i], crate::merge::Fault::Below, total) == (
        ranges[i].end > total));
        assert(crate::merge::has_fault(ranges[i], crate::merge::Fault::Above, total) == (
        ranges[i].start == 0));
    }
    if inverted < ranges.len() {
        assert(ranges[inverted].start > ranges[inverted].end);
    }
    if below < ranges.len() {
        assert(ranges[below].end > total);
    }
    if above < ranges.len() {
        assert(ranges[above].start == 0);
    }
}

/// What a refusal is reported as.
pub proof fn refusals_have_a_message(a: usize, b: usize)
    ensures
        crate::merge::message(MergeError::InvalidRange { start: a, end: b })
            == "Invalid line range: start ("@ + crate::text::decimal(a as nat) + ") > end ("@
            + crate::text::decimal(b as nat) + ")"@,
        crate::merge::message(MergeError::ChunkCountMismatch { expected: a, got: b })
            == "Chunk count mismatch: expected "@ + crate::text::decimal(a as nat)
            + " chunks, got "@ + crate::text::decimal(b as nat),
        crate::merge::message(MergeError::LineNotFound { line: a }) == "Line "@
            + crate::text::decimal(a as nat) + " not found in original content"@,
{
}

} // verus!
