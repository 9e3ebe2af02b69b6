//! Widening of line ranges by the lines around them.
use crate::merge::LineRange;
use vstd::prelude::*;

verus! {

/// How many lines of context a formatter is usually given on either side of a change.
pub const DEFAULT_CONTEXT_LINES: usize = 5;

/// A range that starts at most this many lines behind the end of the one before it
/// becomes part of that one.
pub const MERGE_DISTANCE: usize = 5;

/// A range with `context` more lines on either side, as far as the file of `total` lines
/// has them.
pub open spec fn widened(range: LineRange, total: usize, context: usize) -> LineRange {
    LineRange {
        start: (if range.start - context > 1 { range.start - context } else { 1 }) as usize,
        end: (if range.end + context < total { range.end + context } else { total as int }) as usize,
    }
}

/// All ranges widened.
pub open spec fn widened_all(ranges: Seq<LineRange>, total: usize, context: usize) -> Seq<LineRange> {
    Seq::new(ranges.len(), |i: int| widened(ranges[i], total, context))
}

/// `range` put behind every range that starts no later.
pub open spec fn place_by_start(sorted: Seq<LineRange>, range: LineRange) -> Seq<LineRange>
    decreases sorted.len(),
{
    if sorted.len() == 0 || sorted.last().start <= range.start {
        sorted.push(range)
    } else {
        place_by_start(sorted.drop_last(), range).push(sorted.last())
    }
}

/// The ranges by ascending start; those with equal starts keep their order.
pub open spec fn by_start(ranges: Seq<LineRange>) -> Seq<LineRange>
    decreases ranges.len(),
{
    if ranges.len() == 0 {
        seq![]
    } else {
        place_by_start(by_start(ranges.drop_last()), ranges.last())
    }
}

/// `range` made part of the last range, if that is near enough, or else put behind it.
pub open spec fn absorbed(done: Seq<LineRange>, range: LineRange) -> Seq<LineRange> {
    if done.len() > 0 && range.start <= done.last().end + MERGE_DISTANCE {
        done.drop_last().push(
            LineRange {
                start: done.last().start,
                end: if range.end > done.last().end { range.end } else { done.last().end },
            },
        )
    } else {
        done.push(range)
    }
}

/// The ranges with near neighbours made one.
pub open spec fn coalesced(sorted: Seq<LineRange>) -> Seq<LineRange>
    decreases sorted.len(),
{
    if sorted.len() == 0 {
        seq![]
    } else {
        absorbed(coalesced(sorted.drop_last()), sorted.last())
    }
}

/// The ranges widened, sorted, and with near neighbours made one.
pub open spec fn expanded(ranges: Seq<LineRange>, total: usize, context: usize) -> Seq<LineRange> {
    coalesced(by_start(widened_all(ranges, total, context)))
}

/// The line numbers that the expansion computes can be counted: the end of each range
/// with its context, and the end of each widened range but the last with the merge
/// distance.
pub open spec fn countable(ranges: Seq<LineRange>, total: usize, context: usize) -> bool {
    let sorted = by_start(widened_all(ranges, total, context));
    &&& forall|i: int| 0 <= i < ranges.len() ==> (#[trigger] ranges[i]).end + context <= usize::MAX
    &&& forall|k: int|
        0 <= k < sorted.len() - 1 ==> (#[trigger] sorted[k]).end + MERGE_DISTANCE <= usize::MAX
}

/// Where `place_by_start` puts a range.
pub proof fn lemma_place_by_start_at(sorted: Seq<LineRange>, range: LineRange, pos: int)
    requires
        0 <= pos <= sorted.len(),
        forall|k: int| pos <= k < sorted.len() ==> range.start < sorted[k].start,
        pos > 0 ==> sorted[pos - 1].start <= range.start,
    ensures
        place_by_start(sorted, range) == sorted.insert(pos, range),
    decreases sorted.len(),
{
    if pos == sorted.len() {
        assert(sorted.insert(pos, range) == sorted.push(range));
    } else {
        assert(range.start < sorted.last().start);
        lemma_place_by_start_at(sorted.drop_last(), range, pos);
        assert(sorted.insert(pos, range) == sorted.drop_last().insert(pos, range).push(
            sorted.last(),
        ));
    }
}

/// The ranges by ascending start; those with equal starts keep their order.
pub fn sort_by_start(ranges: &[LineRange]) -> (r: Vec<LineRange>)
    ensures
        r@ == by_start(ranges@),
{
    let mut sorted: Vec<LineRange> = Vec::new();
    let mut i: usize = 0;
    assert(by_start(ranges@.take(0)) == sorted@);
    while i < ranges.len()
        invariant
            i <= ranges@.len(),
            sorted@ == by_start(ranges@.take(i as int)),
        decreases ranges@.len() - i,
    {
        let range = ranges[i];
        let start = range.start;
        let mut pos: usize = sorted.len();
        while pos > 0 && start < sorted[pos - 1].start
            invariant
                pos <= sorted@.len(),
                forall|k: int| pos <= k < sorted@.len() ==> start < sorted@[k].start,
            decreases pos,
        {
            pos -= 1;
        }
        proof {
            lemma_place_by_start_at(sorted@, range, pos as int);
            let next = ranges@.take(i + 1);
            assert(next.drop_last() == ranges@.take(i as int));
            assert(next.last() == range);
        }
        sorted.insert(pos, range);
        i += 1;
    }
    assert(ranges@.take(ranges@.len() as int) == ranges@);
    sorted
}

/// All ranges widened.
fn widen(ranges: &[LineRange], total_lines: usize, context_lines: usize) -> (r: Vec<LineRange>)
    requires
        forall|i: int|
            0 <= i < ranges@.len() ==> (#[trigger] ranges@[i]).end + context_lines <= usize::MAX,
    ensures
        r@ == widened_all(ranges@, total_lines, context_lines),
{
    let mut r: Vec<LineRange> = Vec::new();
    let mut i: usize = 0;
    while i < ranges.len()
        invariant
            i <= ranges@.len(),
            r@ == widened_all(ranges@.take(i as int), total_lines, context_lines),
            forall|j: int|
                0 <= j < ranges@.len() ==> (#[trigger] ranges@[j]).end + context_lines
                    <= usize::MAX,
        decreases ranges@.len() - i,
    {
        let range = ranges[i];
        let shifted = range.start.saturating_sub(context_lines);
        let start = if shifted > 1 { shifted } else { 1 };
        let reach = range.end + context_lines;
        let end = if reach < total_lines { reach } else { total_lines };
        r.push(LineRange { start, end });
        i += 1;
        assert(r@ == widened_all(ranges@.take(i as int), total_lines, context_lines));
    }
    assert(ranges@.take(ranges@.len() as int) == ranges@);
    r
}

/// Widens each range by `context_lines` on either side, within a file of `total_lines`,
/// and makes ranges one that overlap or are near to one another.
pub fn expand_ranges_with_context(
    ranges: &[LineRange],
    total_lines: usize,
    context_lines: usize,
) -> (r: Vec<LineRange>)
    requires
        countable(ranges@, total_lines, context_lines),
    ensures
        r@ == expanded(ranges@, total_lines, context_lines),
{
    let wide = widen(ranges, total_lines, context_lines);
    let sorted = sort_by_start(wide.as_slice());
    let mut done: Vec<LineRange> = Vec::new();
    let mut i: usize = 0;
    assert(coalesced(sorted@.take(0)) == done@);
    while i < sorted.len()
        invariant
            i <= sorted@.len(),
            done@ == coalesced(sorted@.take(i as int)),
            done@.len() > 0 ==> exists|j: int|
                0 <= j < i && done@.last().end == (#[trigger] sorted@[j]).end,
            forall|k: int|
                0 <= k < sorted@.len() - 1 ==> (#[trigger] sorted@[k]).end + MERGE_DISTANCE
                    <= usize::MAX,
        decreases sorted@.len() - i,
    {
        let range = sorted[i];
        proof {
            let next = sorted@.take(i + 1);
            assert(next.drop_last() == sorted@.take(i as int));
            assert(next.last() == range);
        }
        let n = done.len();
        if n > 0 {
            let last = done[n - 1];
            if range.start <= last.end + MERGE_DISTANCE {
                let end = if range.end > last.end { range.end } else { last.end };
                done.pop();
                done.push(LineRange { start: last.start, end });
            } else {
                done.push(range);
            }
        } else {
            done.push(range);
        }
        i += 1;
    }
    assert(sorted@.take(sorted@.len() as int) == sorted@);
    done
}

} // verus!
