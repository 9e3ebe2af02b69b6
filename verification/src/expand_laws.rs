//! What holds of every expansion of line ranges.
use crate::expand::MERGE_DISTANCE;
use crate::merge::LineRange;
use vstd::prelude::*;

verus! {

/// By ascending start.
pub open spec fn starts_ascend(ranges: Seq<LineRange>) -> bool {
    forall|i: int, j: int|
        0 <= i < j < ranges.len() ==> (#[trigger] ranges[i]).start <= (#[trigger] ranges[j]).start
}

/// Each range starts more lines behind the end of every earlier one than the merge
/// distance.
pub open spec fn separated(ranges: Seq<LineRange>) -> bool {
    forall|i: int, j: int|
        0 <= i < j < ranges.len() ==> (#[trigger] ranges[i]).end + MERGE_DISTANCE < (
        #[trigger] ranges[j]).start
}

/// `inner` lies within `outer`.
pub open spec fn within(inner: LineRange, outer: LineRange) -> bool {
    outer.start <= inner.start && inner.end <= outer.end
}

proof fn lemma_place_by_start(sorted: Seq<LineRange>, range: LineRange)
    requires
        starts_ascend(sorted),
    ensures
        starts_ascend(crate::expand::place_by_start(sorted, range)),
        crate::expand::place_by_start(sorted, range).contains(range),
        forall|x: LineRange|
            #[trigger] sorted.contains(x) ==> crate::expand::place_by_start(
                sorted,
                range,
            ).contains(x),
        forall|x: LineRange| #[trigger]
            crate::expand::place_by_start(sorted, range).contains(x) ==> x == range
                || sorted.contains(x),
    decreases sorted.len(),
{
    let placed = crate::expand::place_by_start(sorted, range);
    if sorted.len() == 0 || sorted.last().start <= range.start {
        assert(placed[sorted.len() as int] == range);
        assert forall|x: LineRange| #[trigger] sorted.contains(x) implies placed.contains(x) by {
            let i = choose|i: int| 0 <= i < sorted.len() && sorted[i] == x;
            assert(placed[i] == x);
        }
        assert forall|x: LineRange| #[trigger] placed.contains(x) implies x == range
            || sorted.contains(x) by {
            let i = choose|i: int| 0 <= i < placed.len() && placed[i] == x;
            if i < sorted.len() {
                assert(sorted[i] == x);
            }
        }
    } else {
        let init = sorted.drop_last();
        assert forall|i: int, j: int| 0 <= i < j < init.len() implies (#[trigger] init[i]).start
            <= (#[trigger] init[j]).start by {
            assert(init[i] == sorted[i] && init[j] == sorted[j]);
        }
        lemma_place_by_start(init, range);
        let head = crate::expand::place_by_start(init, range);
        assert(placed[head.len() as int] == sorted.last());
        assert forall|x: LineRange| #[trigger] head.contains(x) implies placed.contains(x) by {
            let i = choose|i: int| 0 <= i < head.len() && head[i] == x;
            assert(placed[i] == x);
        }
        assert forall|x: LineRange| #[trigger] sorted.contains(x) implies placed.contains(x) by {
            let i = choose|i: int| 0 <= i < sorted.len() && sorted[i] == x;
            if i < init.len() {
                assert(init[i] == x);
                assert(init.contains(x));
                assert(head.contains(x));
            }
        }
        assert forall|x: LineRange| #[trigger] placed.contains(x) implies x == range
            || sorted.contains(x) by {
            let i = choose|i: int| 0 <= i < placed.len() && placed[i] == x;
            if i < head.len() {
                assert(head[i] == x);
                assert(head.contains(x));
                if x != range {
                    assert(init.contains(x));
                    let k = choose|k: int| 0 <= k < init.len() && init[k] == x;
                    assert(sorted[k] == x);
                }
            } else {
                assert(sorted[sorted.len() - 1] == x);
            }
        }
        assert forall|i: int, j: int| 0 <= i < j < placed.len() implies (#[trigger] placed[i]).start
            <= (#[trigger] placed[j]).start by {
            assert(placed[i] == head[i]);
            if j < head.len() {
                assert(placed[j] == head[j]);
            } else {
                assert(head.contains(head[i]));
                if head[i] != range {
                    assert(init.contains(head[i]));
                    let k = choose|k: int| 0 <= k < init.len() && init[k] == head[i];
                    assert(sorted[k] == head[i]);
                }
            }
        }
    }
}

pub proof fn lemma_by_start(ranges: Seq<LineRange>)
    ensures
        starts_ascend(crate::expand::by_start(ranges)),
        forall|x: LineRange| #[trigger]
            crate::expand::by_start(ranges).contains(x) ==> ranges.contains(x),
        forall|x: LineRange| #[trigger]
            ranges.contains(x) ==> crate::expand::by_start(ranges).contains(x),
    decreases ranges.len(),
{
    if ranges.len() > 0 {
        let init = ranges.drop_last();
        lemma_by_start(init);
        lemma_place_by_start(crate::expand::by_start(init), ranges.last());
        let sorted = crate::expand::by_start(ranges);
        assert forall|x: LineRange| #[trigger] sorted.contains(x) implies ranges.contains(x) by {
            if x == ranges.last() {
                assert(ranges[ranges.len() - 1] == x);
            } else {
                assert(crate::expand::by_start(init).contains(x));
                assert(init.contains(x));
                let i = choose|i: int| 0 <= i < init.len() && init[i] == x;
                assert(ranges[i] == x);
            }
        }
        assert forall|x: LineRange| #[trigger] ranges.contains(x) implies sorted.contains(x) by {
            let i = choose|i: int| 0 <= i < ranges.len() && ranges[i] == x;
            if i < init.len() {
                assert(init[i] == x);
                assert(init.contains(x));
                assert(crate::expand::by_start(init).contains(x));
            }
        }
    }
}

/// Some range of the list starts where `range` does, and some ends where it does.
pub open spec fn ends_from(list: Seq<LineRange>, range: LineRange) -> bool {
    &&& exists|i: int| 0 <= i < list.len() && (#[trigger] list[i]).start == range.start
    &&& exists|i: int| 0 <= i < list.len() && (#[trigger] list[i]).end == range.end
}

/// Some range of the list covers `range`.
pub open spec fn covered(list: Seq<LineRange>, range: LineRange) -> bool {
    exists|i: int| 0 <= i < list.len() && within(range, #[trigger] list[i])
}

pub proof fn lemma_coalesced_ends(sorted: Seq<LineRange>)
    ensures
        forall|k: int|
            0 <= k < crate::expand::coalesced(sorted).len() ==> ends_from(
                sorted,
                #[trigger] crate::expand::coalesced(sorted)[k],
            ),
    decreases sorted.len(),
{
    if sorted.len() > 0 {
        let init = sorted.drop_last();
        let range = sorted.last();
        lemma_coalesced_ends(init);
        let before = crate::expand::coalesced(init);
        let done = crate::expand::coalesced(sorted);
        assert(sorted[sorted.len() - 1] == range);
        assert forall|k: int| 0 <= k < done.len() implies ends_from(sorted, #[trigger] done[k]) by {
            if k < before.len() {
                assert(ends_from(init, before[k]));
                let i = choose|i: int| 0 <= i < init.len() && (#[trigger] init[i]).start
                    == before[k].start;
                assert(sorted[i].start == done[k].start);
                let j = choose|j: int| 0 <= j < init.len() && (#[trigger] init[j]).end
                    == before[k].end;
                assert(sorted[j].end == before[k].end);
                if done[k].end != before[k].end {
                    assert(done[k].end == range.end);
                }
            } else {
                assert(done[k] == range);
            }
        }
    }
}

pub proof fn lemma_init_ascends(sorted: Seq<LineRange>)
    requires
        starts_ascend(sorted),
        sorted.len() > 0,
    ensures
        starts_ascend(sorted.drop_last()),
{
    let init = sorted.drop_last();
    assert forall|i: int, j: int| 0 <= i < j < init.len() implies (#[trigger] init[i]).start <= (
    #[trigger] init[j]).start by {
        assert(init[i] == sorted[i] && init[j] == sorted[j]);
    }
}

proof fn lemma_coalesced_start_before(sorted: Seq<LineRange>, range: LineRange)
    requires
        forall|i: int| 0 <= i < sorted.len() ==> (#[trigger] sorted[i]).start <= range.start,
    ensures
        forall|k: int|
            0 <= k < crate::expand::coalesced(sorted).len() ==> (
            #[trigger] crate::expand::coalesced(sorted)[k]).start <= range.start,
{
    let done = crate::expand::coalesced(sorted);
    lemma_coalesced_ends(sorted);
    assert forall|k: int| 0 <= k < done.len() implies (#[trigger] done[k]).start <= range.start by {
        assert(ends_from(sorted, done[k]));
    }
}

proof fn lemma_coalesced_covers(sorted: Seq<LineRange>)
    requires
        starts_ascend(sorted),
    ensures
        forall|k: int|
            0 <= k < sorted.len() ==> covered(
                crate::expand::coalesced(sorted),
                #[trigger] sorted[k],
            ),
    decreases sorted.len(),
{
    if sorted.len() > 0 {
        let init = sorted.drop_last();
        let range = sorted.last();
        lemma_init_ascends(sorted);
        lemma_coalesced_covers(init);
        let before = crate::expand::coalesced(init);
        let done = crate::expand::coalesced(sorted);
        assert forall|i: int| 0 <= i < init.len() implies (#[trigger] init[i]).start
            <= range.start by {
            assert(init[i] == sorted[i]);
            assert(range == sorted[sorted.len() - 1]);
        }
        lemma_coalesced_start_before(init, range);
        assert forall|k: int| 0 <= k < sorted.len() implies covered(done, #[trigger] sorted[k]) by {
            if k < init.len() {
                assert(covered(before, init[k]));
                let i = choose|i: int| 0 <= i < before.len() && within(
                    init[k],
                    #[trigger] before[i],
                );
                assert(within(sorted[k], done[i]));
            } else {
                assert(within(range, done[done.len() - 1]));
            }
        }
    }
}

proof fn lemma_coalesced_order(sorted: Seq<LineRange>)
    requires
        starts_ascend(sorted),
    ensures
        starts_ascend(crate::expand::coalesced(sorted)),
        separated(crate::expand::coalesced(sorted)),
    decreases sorted.len(),
{
    if sorted.len() > 0 {
        let init = sorted.drop_last();
        let range = sorted.last();
        lemma_init_ascends(sorted);
        lemma_coalesced_order(init);
        let before = crate::expand::coalesced(init);
        let done = crate::expand::coalesced(sorted);
        let n = before.len() as int;
        assert forall|i: int| 0 <= i < init.len() implies (#[trigger] init[i]).start
            <= range.start by {
            assert(init[i] == sorted[i]);
            assert(range == sorted[sorted.len() - 1]);
        }
        lemma_coalesced_start_before(init, range);
        assert forall|i: int, j: int| 0 <= i < j < done.len() implies (#[trigger] done[i]).start
            <= (#[trigger] done[j]).start && done[i].end + MERGE_DISTANCE < done[j].start by {
            assert(done[i] == before[i]);
            if j < n {
                assert(before[i].end + MERGE_DISTANCE < before[j].start);
                assert(before[i].start <= before[j].start);
                assert(done[j].start == before[j].start);
            } else {
                assert(done[j] == range);
                assert(before[n - 1].end + MERGE_DISTANCE < range.start);
                if i < n - 1 {
                    assert(before[i].end + MERGE_DISTANCE < before[n - 1].start);
                }
            }
        }
    }
}

/// Every expanded range starts at line one or below and ends at the last line or above.
pub proof fn expansion_stays_in_the_file(ranges: Seq<LineRange>, total: usize, context: usize)
    ensures
        forall|k: int|
            0 <= k < crate::expand::expanded(ranges, total, context).len() ==> 1 <= (
            #[trigger] crate::expand::expanded(ranges, total, context)[k]).start
                && crate::expand::expanded(ranges, total, context)[k].end <= total,
{
    let wide = crate::expand::widened_all(ranges, total, context);
    let sorted = crate::expand::by_start(wide);
    let done = crate::expand::expanded(ranges, total, context);
    lemma_by_start(wide);
    lemma_coalesced_ends(sorted);
    assert forall|k: int| 0 <= k < done.len() implies 1 <= (#[trigger] done[k]).start
        && done[k].end <= total by {
        assert(ends_from(sorted, done[k]));
        let i = choose|i: int| 0 <= i < sorted.len() && (#[trigger] sorted[i]).start
            == done[k].start;
        let j = choose|j: int| 0 <= j < sorted.len() && (#[trigger] sorted[j]).end == done[k].end;
        assert(sorted.contains(sorted[i]) && sorted.contains(sorted[j]));
        assert(wide.contains(sorted[i]) && wide.contains(sorted[j]));
    }
}

/// Every range, widened by its context as far as the file goes, lies within one of the
/// expanded ranges.
pub proof fn expansion_covers_every_range(ranges: Seq<LineRange>, total: usize, context: usize)
    ensures
        forall|i: int|
            0 <= i < ranges.len() ==> covered(
                crate::expand::expanded(ranges, total, context),
                crate::expand::widened(#[trigger] ranges[i], total, context),
            ),
{
    let wide = crate::expand::widened_all(ranges, total, context);
    let sorted = crate::expand::by_start(wide);
    let done = crate::expand::expanded(ranges, total, context);
    lemma_by_start(wide);
    lemma_coalesced_covers(sorted);
    assert forall|i: int| 0 <= i < ranges.len() implies covered(
        done,
        crate::expand::widened(#[trigger] ranges[i], total, context),
    ) by {
        assert(wide.contains(wide[i]));
        assert(sorted.contains(wide[i]));
        let k = choose|k: int| 0 <= k < sorted.len() && sorted[k] == wide[i];
        assert(covered(done, sorted[k]));
    }
}

/// Every expanded range starts where some widened range starts and ends where some
/// widened range ends.
pub proof fn expansion_adds_no_ends(ranges: Seq<LineRange>, total: usize, context: usize)
    ensures
        forall|k: int|
            0 <= k < crate::expand::expanded(ranges, total, context).len() ==> ends_from(
                crate::expand::widened_all(ranges, total, context),
                #[trigger] crate::expand::expanded(ranges, total, context)[k],
            ),
{
    let wide = crate::expand::widened_all(ranges, total, context);
    let sorted = crate::expand::by_start(wide);
    let done = crate::expand::expanded(ranges, total, context);
    lemma_by_start(wide);
    lemma_coalesced_ends(sorted);
    assert forall|k: int| 0 <= k < done.len() implies ends_from(wide, #[trigger] done[k]) by {
        assert(ends_from(sorted, done[k]));
        let i = choose|i: int| 0 <= i < sorted.len() && (#[trigger] sorted[i]).start
            == done[k].start;
        let j = choose|j: int| 0 <= j < sorted.len() && (#[trigger] sorted[j]).end == done[k].end;
        assert(sorted.contains(sorted[i]) && sorted.contains(sorted[j]));
        assert(wide.contains(sorted[i]) && wide.contains(sorted[j]));
        let p = choose|p: int| 0 <= p < wide.len() && wide[p] == sorted[i];
        let q = choose|q: int| 0 <= q < wide.len() && wide[q] == sorted[j];
        assert(wide[p].start == done[k].start && wide[q].end == done[k].end);
    }
}

/// The expanded ranges come in ascending order, and none overlaps, adjoins or is near to
/// another: at least as many lines as the merge distance lie between them.
pub proof fn expansion_is_sorted_and_separated(
    ranges: Seq<LineRange>,
    total: usize,
    context: usize,
)
    ensures
        starts_ascend(crate::expand::expanded(ranges, total, context)),
        separated(crate::expand::expanded(ranges, total, context)),
{
    let wide = crate::expand::widened_all(ranges, total, context);
    lemma_by_start(wide);
    lemma_coalesced_order(crate::expand::by_start(wide));
}

pub proof fn lemma_by_start_of_sorted(ranges: Seq<LineRange>)
    requires
        starts_ascend(ranges),
    ensures
        crate::expand::by_start(ranges) == ranges,
    decreases ranges.len(),
{
    if ranges.len() > 0 {
        let init = ranges.drop_last();
        assert forall|i: int, j: int| 0 <= i < j < init.len() implies (#[trigger] init[i]).start
            <= (#[trigger] init[j]).start by {
            assert(init[i] == ranges[i] && init[j] == ranges[j]);
        }
        lemma_by_start_of_sorted(init);
        if init.len() > 0 {
            assert(init.last() == ranges[ranges.len() - 2]);
            assert(ranges.last() == ranges[ranges.len() - 1]);
        }
        assert(init.push(ranges.last()) == ranges);
    } else {
        assert(crate::expand::by_start(ranges) == ranges);
    }
}

proof fn lemma_coalesced_of_separated(ranges: Seq<LineRange>)
    requires
        separated(ranges),
    ensures
        crate::expand::coalesced(ranges) == ranges,
    decreases ranges.len(),
{
    if ranges.len() > 0 {
        let init = ranges.drop_last();
        assert forall|i: int, j: int| 0 <= i < j < init.len() implies (#[trigger] init[i]).end
            + MERGE_DISTANCE < (#[trigger] init[j]).start by {
            assert(init[i] == ranges[i] && init[j] == ranges[j]);
        }
        lemma_coalesced_of_separated(init);
        if init.len() > 0 {
            assert(init.last() == ranges[ranges.len() - 2]);
            assert(ranges.last() == ranges[ranges.len() - 1]);
        }
        assert(init.push(ranges.last()) == ranges);
    } else {
        assert(crate::expand::coalesced(ranges) == ranges);
    }
}

/// Expanding an expansion by no further context changes nothing.
pub proof fn expansion_is_stable(ranges: Seq<LineRange>, total: usize, context: usize)
    ensures
        crate::expand::expanded(crate::expand::expanded(ranges, total, context), total, 0)
            == crate::expand::expanded(ranges, total, context),
{
    let done = crate::expand::expanded(ranges, total, context);
    expansion_stays_in_the_file(ranges, total, context);
    expansion_is_sorted_and_separated(ranges, total, context);
    assert(crate::expand::widened_all(done, total, 0) == done);
    lemma_by_start_of_sorted(done);
    lemma_coalesced_of_separated(done);
}

} // verus!
