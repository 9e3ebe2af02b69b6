//! That the order of line ranges does not matter to their expansion, and how many ranges
//! there are afterwards.
use crate::expand::MERGE_DISTANCE;
use crate::merge::LineRange;
use vstd::prelude::*;

verus! {

/// Each range has a line in a file of `total` lines.
pub open spec fn start_in_the_file(ranges: Seq<LineRange>, total: usize) -> bool {
    forall|i: int|
        0 <= i < ranges.len() ==> 1 <= (#[trigger] ranges[i]).start <= ranges[i].end
            && ranges[i].start <= total
}

/// No range starts behind its end.
pub open spec fn upright(ranges: Seq<LineRange>) -> bool {
    forall|i: int| 0 <= i < ranges.len() ==> (#[trigger] ranges[i]).start <= ranges[i].end
}

/// Two ranges that start at the same line can be absorbed in either order.
proof fn lemma_absorbed_commutes(done: Seq<LineRange>, a: LineRange, b: LineRange)
    requires
        a.start == b.start,
        a.start <= a.end,
        b.start <= b.end,
    ensures
        crate::expand::absorbed(crate::expand::absorbed(done, a), b) == crate::expand::absorbed(
            crate::expand::absorbed(done, b),
            a,
        ),
{
    let first_a = crate::expand::absorbed(done, a);
    let first_b = crate::expand::absorbed(done, b);
    if done.len() > 0 && a.start <= done.last().end + MERGE_DISTANCE {
        assert(first_a.drop_last() == done.drop_last());
        assert(first_b.drop_last() == done.drop_last());
    } else {
        assert(first_a.drop_last() == done);
        assert(first_b.drop_last() == done);
    }
}

/// A range moves to the end, past ranges that start at the same line.
proof fn lemma_coalesced_moves(sorted: Seq<LineRange>, j: int)
    requires
        0 <= j < sorted.len(),
        upright(sorted),
        forall|k: int| j <= k < sorted.len() ==> (#[trigger] sorted[k]).start == sorted[j].start,
    ensures
        crate::expand::coalesced(sorted) == crate::expand::coalesced(
            sorted.remove(j).push(sorted[j]),
        ),
    decreases sorted.len(),
{
    let a = sorted[j];
    let moved = sorted.remove(j).push(a);
    if j == sorted.len() - 1 {
        assert(moved == sorted);
    } else {
        let init = sorted.drop_last();
        let x = sorted.last();
        assert(x == sorted[sorted.len() - 1]);
        assert forall|k: int| 0 <= k < init.len() implies (#[trigger] init[k]).start
            <= init[k].end by {
            assert(init[k] == sorted[k]);
        }
        assert forall|k: int| j <= k < init.len() implies (#[trigger] init[k]).start
            == init[j].start by {
            assert(init[k] == sorted[k]);
        }
        lemma_coalesced_moves(init, j);
        let rest = init.remove(j);
        assert(rest.push(a).drop_last() == rest);
        assert(moved.drop_last() == rest.push(x));
        assert(rest.push(x).drop_last() == rest);
        let before = crate::expand::coalesced(rest);
        lemma_absorbed_commutes(before, a, x);
        assert(crate::expand::coalesced(rest.push(a)) == crate::expand::absorbed(before, a));
        assert(crate::expand::coalesced(rest.push(x)) == crate::expand::absorbed(before, x));
        assert(moved.last() == a);
        assert(crate::expand::coalesced(moved) == crate::expand::absorbed(
            crate::expand::coalesced(rest.push(x)),
            a,
        ));
    }
}

/// The same ranges by ascending start, whatever the order of those that start at the same
/// line, are made one in the same way.
proof fn lemma_coalesced_of_same(a: Seq<LineRange>, b: Seq<LineRange>)
    requires
        crate::expand_laws::starts_ascend(a),
        crate::expand_laws::starts_ascend(b),
        upright(a),
        upright(b),
        a.to_multiset() == b.to_multiset(),
    ensures
        crate::expand::coalesced(a) == crate::expand::coalesced(b),
    decreases a.len(),
{
    a.to_multiset_ensures();
    b.to_multiset_ensures();
    assert(a.len() == b.len());
    if a.len() == 0 {
        assert(a == b);
    } else {
        let x = a.last();
        let y = b.last();
        assert(a[a.len() - 1] == x && b[b.len() - 1] == y);
        assert(a.contains(x) && b.contains(y));
        assert(b.to_multiset().count(x) > 0 && a.to_multiset().count(y) > 0);
        assert(b.contains(x) && a.contains(y));
        let j = choose|j: int| 0 <= j < b.len() && b[j] == x;
        let i = choose|i: int| 0 <= i < a.len() && a[i] == y;
        assert(x.start <= y.start) by {
            if j < b.len() - 1 {
                assert(b[j].start <= b[b.len() - 1].start);
            }
        }
        assert(y.start <= x.start) by {
            if i < a.len() - 1 {
                assert(a[i].start <= a[a.len() - 1].start);
            }
        }
        assert forall|k: int| j <= k < b.len() implies (#[trigger] b[k]).start == b[j].start by {
            if j < k {
                assert(b[j].start <= b[k].start);
            }
            if k < b.len() - 1 {
                assert(b[k].start <= b[b.len() - 1].start);
            }
        }
        lemma_coalesced_moves(b, j);
        let rest = b.remove(j);
        assert(rest.push(x).drop_last() == rest);
        let init = a.drop_last();
        assert(init == a.remove(a.len() - 1));
        assert(init.to_multiset() == rest.to_multiset());
        crate::expand_laws::lemma_init_ascends(a);
        assert forall|k: int, l: int| 0 <= k < l < rest.len() implies (#[trigger] rest[k]).start
            <= (#[trigger] rest[l]).start by {
            let k2 = if k < j { k } else { k + 1 };
            let l2 = if l < j { l } else { l + 1 };
            assert(rest[k] == b[k2] && rest[l] == b[l2]);
        }
        assert forall|k: int| 0 <= k < rest.len() implies (#[trigger] rest[k]).start
            <= rest[k].end by {
            let k2 = if k < j { k } else { k + 1 };
            assert(rest[k] == b[k2]);
        }
        assert forall|k: int| 0 <= k < init.len() implies (#[trigger] init[k]).start
            <= init[k].end by {
            assert(init[k] == a[k]);
        }
        lemma_coalesced_of_same(init, rest);
    }
}

proof fn lemma_place_keeps_ranges(sorted: Seq<LineRange>, range: LineRange)
    ensures
        crate::expand::place_by_start(sorted, range).to_multiset() == sorted.to_multiset().insert(
            range,
        ),
        crate::expand::place_by_start(sorted, range).len() == sorted.len() + 1,
    decreases sorted.len(),
{
    sorted.to_multiset_ensures();
    if !(sorted.len() == 0 || sorted.last().start <= range.start) {
        let init = sorted.drop_last();
        let head = crate::expand::place_by_start(init, range);
        lemma_place_keeps_ranges(init, range);
        init.to_multiset_ensures();
        head.to_multiset_ensures();
        assert(init.push(sorted.last()) == sorted);
        assert(head.push(sorted.last()).to_multiset() == sorted.to_multiset().insert(range));
    }
}

/// Sorting keeps the ranges.
pub proof fn lemma_by_start_keeps_ranges(ranges: Seq<LineRange>)
    ensures
        crate::expand::by_start(ranges).to_multiset() == ranges.to_multiset(),
        crate::expand::by_start(ranges).len() == ranges.len(),
    decreases ranges.len(),
{
    if ranges.len() == 0 {
        assert(crate::expand::by_start(ranges) == ranges);
    } else {
        let init = ranges.drop_last();
        lemma_by_start_keeps_ranges(init);
        lemma_place_keeps_ranges(crate::expand::by_start(init), ranges.last());
        init.to_multiset_ensures();
        assert(init.push(ranges.last()) == ranges);
    }
}

proof fn lemma_widened_of_same(
    a: Seq<LineRange>,
    b: Seq<LineRange>,
    total: usize,
    context: usize,
)
    requires
        a.to_multiset() == b.to_multiset(),
    ensures
        crate::expand::widened_all(a, total, context).to_multiset() == crate::expand::widened_all(
            b,
            total,
            context,
        ).to_multiset(),
    decreases a.len(),
{
    a.to_multiset_ensures();
    b.to_multiset_ensures();
    let wide_a = crate::expand::widened_all(a, total, context);
    let wide_b = crate::expand::widened_all(b, total, context);
    assert(a.len() == b.len());
    if a.len() == 0 {
        assert(wide_a == wide_b);
    } else {
        let x = a.last();
        assert(a[a.len() - 1] == x);
        assert(a.contains(x));
        assert(b.to_multiset().count(x) > 0);
        assert(b.contains(x));
        let j = choose|j: int| 0 <= j < b.len() && b[j] == x;
        let init = a.drop_last();
        let rest = b.remove(j);
        assert(init == a.remove(a.len() - 1));
        lemma_widened_of_same(init, rest, total, context);
        let wide_init = crate::expand::widened_all(init, total, context);
        let wide_rest = crate::expand::widened_all(rest, total, context);
        let w = crate::expand::widened(x, total, context);
        assert(wide_a == wide_init.push(w));
        wide_init.to_multiset_ensures();
        wide_b.to_multiset_ensures();
        assert(wide_b.remove(j) == wide_rest);
        assert(wide_b[j] == w);
        assert(wide_b.contains(w));
        assert(wide_b.to_multiset() == wide_rest.to_multiset().insert(w));
    }
}

proof fn lemma_widened_upright(ranges: Seq<LineRange>, total: usize, context: usize)
    requires
        start_in_the_file(ranges, total),
    ensures
        upright(
            crate::expand::by_start(crate::expand::widened_all(ranges, total, context)),
        ),
{
    let wide = crate::expand::widened_all(ranges, total, context);
    let sorted = crate::expand::by_start(wide);
    crate::expand_laws::lemma_by_start(wide);
    assert forall|i: int| 0 <= i < sorted.len() implies (#[trigger] sorted[i]).start
        <= sorted[i].end by {
        assert(sorted.contains(sorted[i]));
        let k = choose|k: int| 0 <= k < wide.len() && wide[k] == sorted[i];
        assert(1 <= ranges[k].start <= ranges[k].end && ranges[k].start <= total);
    }
}

/// The order in which ranges are given does not matter to their expansion.
pub proof fn expansion_does_not_depend_on_the_order(
    ranges: Seq<LineRange>,
    other: Seq<LineRange>,
    total: usize,
    context: usize,
)
    requires
        ranges.to_multiset() == other.to_multiset(),
        start_in_the_file(ranges, total),
    ensures
        crate::expand::expanded(ranges, total, context) == crate::expand::expanded(
            other,
            total,
            context,
        ),
{
    let wide = crate::expand::widened_all(ranges, total, context);
    let wide_other = crate::expand::widened_all(other, total, context);
    ranges.to_multiset_ensures();
    other.to_multiset_ensures();
    assert forall|i: int| 0 <= i < other.len() implies 1 <= (#[trigger] other[i]).start
        <= other[i].end && other[i].start <= total by {
        assert(other.contains(other[i]));
        assert(ranges.to_multiset().count(other[i]) > 0);
        assert(ranges.contains(other[i]));
        let k = choose|k: int| 0 <= k < ranges.len() && ranges[k] == other[i];
        assert(1 <= ranges[k].start);
    }
    lemma_widened_of_same(ranges, other, total, context);
    lemma_by_start_keeps_ranges(wide);
    lemma_by_start_keeps_ranges(wide_other);
    crate::expand_laws::lemma_by_start(wide);
    crate::expand_laws::lemma_by_start(wide_other);
    lemma_widened_upright(ranges, total, context);
    lemma_widened_upright(other, total, context);
    lemma_coalesced_of_same(
        crate::expand::by_start(wide),
        crate::expand::by_start(wide_other),
    );
}

proof fn lemma_coalesced_upright(sorted: Seq<LineRange>)
    requires
        upright(sorted),
    ensures
        upright(crate::expand::coalesced(sorted)),
    decreases sorted.len(),
{
    if sorted.len() > 0 {
        let init = sorted.drop_last();
        assert forall|k: int| 0 <= k < init.len() implies (#[trigger] init[k]).start
            <= init[k].end by {
            assert(init[k] == sorted[k]);
        }
        lemma_coalesced_upright(init);
        let before = crate::expand::coalesced(init);
        let done = crate::expand::coalesced(sorted);
        let range = sorted.last();
        assert(range == sorted[sorted.len() - 1]);
        assert forall|k: int| 0 <= k < done.len() implies (#[trigger] done[k]).start
            <= done[k].end by {
            if k < before.len() {
                assert(before[k].start <= before[k].end);
            }
        }
    }
}

proof fn lemma_coalesced_len(sorted: Seq<LineRange>)
    ensures
        crate::expand::coalesced(sorted).len() <= sorted.len(),
        crate::expand::coalesced(sorted).len() == 0 <==> sorted.len() == 0,
    decreases sorted.len(),
{
    if sorted.len() > 0 {
        lemma_coalesced_len(sorted.drop_last());
    }
}

/// No expanded range starts behind its end, if the ranges have a line in the file.
pub proof fn expanded_ranges_have_lines(ranges: Seq<LineRange>, total: usize, context: usize)
    requires
        start_in_the_file(ranges, total),
    ensures
        upright(crate::expand::expanded(ranges, total, context)),
{
    lemma_widened_upright(ranges, total, context);
    lemma_coalesced_upright(
        crate::expand::by_start(crate::expand::widened_all(ranges, total, context)),
    );
}

/// Expansion gives at most as many ranges as there were, and none only where there were
/// none.
pub proof fn expansion_adds_no_ranges(ranges: Seq<LineRange>, total: usize, context: usize)
    ensures
        crate::expand::expanded(ranges, total, context).len() <= ranges.len(),
        crate::expand::expanded(ranges, total, context).len() == 0 <==> ranges.len() == 0,
{
    let wide = crate::expand::widened_all(ranges, total, context);
    lemma_by_start_keeps_ranges(wide);
    lemma_coalesced_len(crate::expand::by_start(wide));
}

} // verus!
