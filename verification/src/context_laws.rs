//! Which lines an expansion of line ranges takes in, in terms of line numbers alone.
use crate::merge::LineRange;
use vstd::prelude::*;

verus! {

/// The larger of two numbers.
pub open spec fn larger(a: int, b: int) -> int {
    if a >= b {
        a
    } else {
        b
    }
}

/// The smaller of two numbers.
pub open spec fn smaller(a: int, b: int) -> int {
    if a <= b {
        a
    } else {
        b
    }
}

/// Every line of the file that is at most `context` lines away from a range is in the
/// expansion, whatever the size of the context.
pub proof fn lines_near_a_range_are_taken_in(
    ranges: Seq<LineRange>,
    total: usize,
    context: usize,
    i: int,
    line: int,
)
    requires
        0 <= i < ranges.len(),
        1 <= line <= total,
        ranges[i].start - context <= line <= ranges[i].end + context,
    ensures
        exists|k: int|
            0 <= k < crate::expand::expanded(ranges, total, context).len() && (
            #[trigger] crate::expand::expanded(ranges, total, context)[k]).start <= line
                <= crate::expand::expanded(ranges, total, context)[k].end,
{
    let done = crate::expand::expanded(ranges, total, context);
    crate::expand_laws::expansion_covers_every_range(ranges, total, context);
    let wide = crate::expand::widened(ranges[i], total, context);
    assert(crate::expand_laws::covered(done, wide));
    let k = choose|k: int|
        0 <= k < done.len() && crate::expand_laws::within(wide, #[trigger] done[k]);
    assert(done[k].start <= line <= done[k].end);
}

/// Every expanded range starts `context` lines before the start of some range, but not
/// before the first line of the file, and ends `context` lines behind the end of some range,
/// but not behind the last line of the file.
pub proof fn expanded_ranges_end_with_a_context(
    ranges: Seq<LineRange>,
    total: usize,
    context: usize,
    k: int,
)
    requires
        0 <= k < crate::expand::expanded(ranges, total, context).len(),
    ensures
        exists|i: int|
            0 <= i < ranges.len() && crate::expand::expanded(ranges, total, context)[k].start
                == larger(1, (#[trigger] ranges[i]).start - context),
        exists|j: int|
            0 <= j < ranges.len() && crate::expand::expanded(ranges, total, context)[k].end
                == smaller(total as int, (#[trigger] ranges[j]).end + context),
{
    let done = crate::expand::expanded(ranges, total, context);
    let wide = crate::expand::widened_all(ranges, total, context);
    crate::expand_laws::expansion_adds_no_ends(ranges, total, context);
    assert(crate::expand_laws::ends_from(wide, done[k]));
    let i = choose|i: int| 0 <= i < wide.len() && (#[trigger] wide[i]).start == done[k].start;
    let j = choose|j: int| 0 <= j < wide.len() && (#[trigger] wide[j]).end == done[k].end;
    assert(done[k].start == larger(1, ranges[i].start - context));
    assert(done[k].end == smaller(total as int, ranges[j].end + context));
}

/// From the end of an expanded range to the start of any later one it is more than five
/// lines.
pub proof fn expanded_ranges_are_more_than_five_lines_apart(
    ranges: Seq<LineRange>,
    total: usize,
    context: usize,
)
    ensures
        forall|a: int, b: int|
            0 <= a < b < crate::expand::expanded(ranges, total, context).len() ==> (
            #[trigger] crate::expand::expanded(ranges, total, context)[a]).end + 5 < (
            #[trigger] crate::expand::expanded(ranges, total, context)[b]).start,
{
    crate::expand_laws::expansion_is_sorted_and_separated(ranges, total, context);
}

proof fn lemma_coalesced_is_near(sorted: Seq<LineRange>, k: int, line: int)
    requires
        forall|i: int| 0 <= i < sorted.len() ==> (#[trigger] sorted[i]).start <= sorted[i].end,
        0 <= k < crate::expand::coalesced(sorted).len(),
        crate::expand::coalesced(sorted)[k].start <= line <= crate::expand::coalesced(sorted)[k].end,
    ensures
        exists|i: int|
            0 <= i < sorted.len() && (#[trigger] sorted[i]).start <= line <= sorted[i].end + 4,
    decreases sorted.len(),
{
    let init = sorted.drop_last();
    let range = sorted.last();
    assert(sorted[sorted.len() - 1] == range);
    let before = crate::expand::coalesced(init);
    let done = crate::expand::coalesced(sorted);
    assert forall|i: int| 0 <= i < init.len() implies (#[trigger] init[i]).start
        <= init[i].end by {
        assert(init[i] == sorted[i]);
    }
    if k < before.len() && before[k].start <= line <= before[k].end {
        lemma_coalesced_is_near(init, k, line);
        let i = choose|i: int|
            0 <= i < init.len() && (#[trigger] init[i]).start <= line <= init[i].end + 4;
        assert(sorted[i] == init[i]);
    } else if range.start <= line <= range.end {
        assert(sorted[sorted.len() - 1].start <= line);
    } else {
        crate::expand_laws::lemma_coalesced_ends(init);
        assert(crate::expand_laws::ends_from(init, before[k]));
        let i = choose|i: int| 0 <= i < init.len() && (#[trigger] init[i]).end == before[k].end;
        assert(sorted[i] == init[i]);
        assert(sorted[i].start <= line <= sorted[i].end + 4);
    }
}

/// Every line of an expanded range is in the context of some range, or one of the four lines
/// behind such a context: a context that starts at the fifth line behind another, or before,
/// is made one with it, and no other is.
pub proof fn expanded_lines_are_near_a_range(
    ranges: Seq<LineRange>,
    total: usize,
    context: usize,
    k: int,
    line: int,
)
    requires
        forall|i: int|
            0 <= i < ranges.len() ==> 1 <= (#[trigger] ranges[i]).start <= ranges[i].end
                && ranges[i].start <= total,
        0 <= k < crate::expand::expanded(ranges, total, context).len(),
        crate::expand::expanded(ranges, total, context)[k].start <= line,
        line <= crate::expand::expanded(ranges, total, context)[k].end,
    ensures
        exists|i: int|
            0 <= i < ranges.len() && larger(1, (#[trigger] ranges[i]).start - context) <= line
                <= smaller(total as int, ranges[i].end + context) + 4,
{
    let wide = crate::expand::widened_all(ranges, total, context);
    let sorted = crate::expand::by_start(wide);
    crate::expand_laws::lemma_by_start(wide);
    assert forall|i: int| 0 <= i < sorted.len() implies (#[trigger] sorted[i]).start
        <= sorted[i].end by {
        assert(sorted.contains(sorted[i]));
        let j = choose|j: int| 0 <= j < wide.len() && wide[j] == sorted[i];
        assert(ranges[j].start <= ranges[j].end);
    }
    lemma_coalesced_is_near(sorted, k, line);
    let i = choose|i: int|
        0 <= i < sorted.len() && (#[trigger] sorted[i]).start <= line <= sorted[i].end + 4;
    assert(sorted.contains(sorted[i]));
    let j = choose|j: int| 0 <= j < wide.len() && wide[j] == sorted[i];
    assert(larger(1, ranges[j].start - context) <= line <= smaller(
        total as int,
        ranges[j].end + context,
    ) + 4);
}

/// Every range lies in an expanded range, with its context as far as the file has it.
pub proof fn every_range_is_taken_in_with_its_context(
    ranges: Seq<LineRange>,
    total: usize,
    context: usize,
    i: int,
)
    requires
        0 <= i < ranges.len(),
    ensures
        exists|k: int|
            0 <= k < crate::expand::expanded(ranges, total, context).len() && (
            #[trigger] crate::expand::expanded(ranges, total, context)[k]).start <= larger(
                1,
                ranges[i].start - context,
            ) && smaller(total as int, ranges[i].end + context) <= crate::expand::expanded(
                ranges,
                total,
                context,
            )[k].end,
{
    let done = crate::expand::expanded(ranges, total, context);
    let wide = crate::expand::widened(ranges[i], total, context);
    crate::expand_laws::expansion_covers_every_range(ranges, total, context);
    assert(crate::expand_laws::covered(done, wide));
    let k = choose|k: int|
        0 <= k < done.len() && crate::expand_laws::within(wide, #[trigger] done[k]);
    assert(done[k].start <= larger(1, ranges[i].start - context));
}

/// A range that starts no earlier than the others is made one with the last of their
/// expansion if its context starts at the fifth line behind that or before. Otherwise its
/// context stands alone, behind the others.
pub proof fn the_lowest_range_joins_the_last_or_stands_alone(
    ranges: Seq<LineRange>,
    range: LineRange,
    total: usize,
    context: usize,
)
    requires
        forall|i: int| 0 <= i < ranges.len() ==> (#[trigger] ranges[i]).start <= range.start,
    ensures
        ({
            let before = crate::expand::expanded(ranges, total, context);
            let start = larger(1, range.start - context) as usize;
            let end = smaller(total as int, range.end + context) as usize;
            let n = before.len() - 1;
            crate::expand::expanded(ranges.push(range), total, context) == (if before.len() > 0
                && start <= before[n].end + 5 {
                before.take(n).push(
                    LineRange {
                        start: before[n].start,
                        end: larger(before[n].end as int, end as int) as usize,
                    },
                )
            } else {
                before.push(LineRange { start, end })
            })
        }),
{
    let wide = crate::expand::widened_all(ranges, total, context);
    let sorted = crate::expand::by_start(wide);
    let before = crate::expand::expanded(ranges, total, context);
    let new = crate::expand::widened(range, total, context);
    let all = crate::expand::widened_all(ranges.push(range), total, context);
    assert(all == wide.push(new));
    assert(all.drop_last() == wide);
    crate::expand_laws::lemma_by_start(wide);
    if sorted.len() > 0 {
        assert(sorted.contains(sorted.last()));
        let j = choose|j: int| 0 <= j < wide.len() && wide[j] == sorted.last();
        assert(ranges[j].start <= range.start);
    }
    assert(crate::expand::by_start(all) == sorted.push(new));
    assert(sorted.push(new).drop_last() == sorted);
    if before.len() > 0 {
        assert(before.drop_last() == before.take(before.len() - 1));
    }
}

/// A range that is expanded alone gains `context` lines on either side, as far as the file
/// has them.
pub proof fn one_range_gains_its_context(range: LineRange, total: usize, context: usize)
    ensures
        crate::expand::expanded(seq![range], total, context) == seq![
            LineRange {
                start: larger(1, range.start - context) as usize,
                end: smaller(total as int, range.end + context) as usize,
            },
        ],
{
    let ranges = seq![range];
    let wide = crate::expand::widened_all(ranges, total, context);
    assert(wide.drop_last() == Seq::<LineRange>::empty());
    let none = Seq::<LineRange>::empty();
    assert(crate::expand::by_start(wide.drop_last()) == none);
    let sorted = crate::expand::by_start(wide);
    assert(sorted == none.push(wide[0]));
    assert(sorted.drop_last() == none);
    assert(crate::expand::coalesced(none) == none);
    assert(crate::expand::expanded(ranges, total, context) =~= seq![wide[0]]);
}

/// In a file whose last line, and five lines more, can be counted, ranges can be expanded
/// exactly if the end of each with its context can be counted.
pub proof fn small_numbers_can_be_counted(ranges: Seq<LineRange>, total: usize, context: usize)
    requires
        total + 5 <= usize::MAX,
    ensures
        crate::expand::countable(ranges, total, context) <==> forall|i: int|
            0 <= i < ranges.len() ==> (#[trigger] ranges[i]).end + context <= usize::MAX,
{
    let wide = crate::expand::widened_all(ranges, total, context);
    let sorted = crate::expand::by_start(wide);
    crate::expand_laws::lemma_by_start(wide);
    assert forall|k: int| 0 <= k < sorted.len() - 1 implies (#[trigger] sorted[k]).end + 5
        <= usize::MAX by {
        assert(sorted.contains(sorted[k]));
        let j = choose|j: int| 0 <= j < wide.len() && wide[j] == sorted[k];
        assert(wide[j].end <= total);
    }
}

proof fn lemma_place_is_stable(sorted: Seq<LineRange>, range: LineRange, start: usize)
    ensures
        crate::expand::place_by_start(sorted, range).filter(|r: LineRange| r.start == start) == (
        if range.start == start {
            sorted.filter(|r: LineRange| r.start == start).push(range)
        } else {
            sorted.filter(|r: LineRange| r.start == start)
        }),
    decreases sorted.len(),
{
    reveal(Seq::filter);
    let placed = crate::expand::place_by_start(sorted, range);
    if sorted.len() == 0 || sorted.last().start <= range.start {
        assert(placed.drop_last() == sorted);
    } else {
        let init = sorted.drop_last();
        lemma_place_is_stable(init, range, start);
        assert(placed.drop_last() == crate::expand::place_by_start(init, range));
    }
}

/// Sorting puts ranges in ascending order, loses none, and keeps the order of those that
/// start at the same line.
pub proof fn sorting_is_stable(ranges: Seq<LineRange>, start: usize)
    ensures
        forall|a: int, b: int|
            0 <= a < b < crate::expand::by_start(ranges).len() ==> (
            #[trigger] crate::expand::by_start(ranges)[a]).start <= (
            #[trigger] crate::expand::by_start(ranges)[b]).start,
        crate::expand::by_start(ranges).to_multiset() == ranges.to_multiset(),
        crate::expand::by_start(ranges).filter(|r: LineRange| r.start == start) == ranges.filter(
            |r: LineRange| r.start == start,
        ),
    decreases ranges.len(),
{
    crate::expand_laws::lemma_by_start(ranges);
    crate::order_laws::lemma_by_start_keeps_ranges(ranges);
    reveal(Seq::filter);
    if ranges.len() > 0 {
        let init = ranges.drop_last();
        sorting_is_stable(init, start);
        lemma_place_is_stable(crate::expand::by_start(init), ranges.last(), start);
    }
}

} // verus!
