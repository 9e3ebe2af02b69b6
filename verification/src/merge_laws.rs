//! What holds of every merge.
use crate::merge::{LineRange, MergeError, Replacement};
use vstd::prelude::*;

verus! {

/// Every range names existing lines, its first no lower than its last.
pub open spec fn in_bounds(ranges: Seq<LineRange>, total: nat) -> bool {
    forall|i: int|
        0 <= i < ranges.len() ==> 1 <= (#[trigger] ranges[i]).start <= ranges[i].end <= total
}

/// No line belongs to two ranges.
pub open spec fn disjoint(ranges: Seq<LineRange>) -> bool {
    forall|i: int, j: int|
        0 <= i < ranges.len() && 0 <= j < ranges.len() && i != j ==> (#[trigger] ranges[i]).end
            < (#[trigger] ranges[j]).start || ranges[j].end < ranges[i].start
}

/// Each range ends before the next one starts.
pub open spec fn ascending(ranges: Seq<LineRange>) -> bool {
    forall|i: int, j: int|
        0 <= i < j < ranges.len() ==> (#[trigger] ranges[i]).end < (#[trigger] ranges[j]).start
}

/// Ranges are accepted exactly if there is a chunk for each and all are in bounds.
pub proof fn accepted_iff_in_bounds(total: nat, ranges: Seq<LineRange>, chunks: nat)
    ensures
        crate::merge::rejection(total, ranges, chunks) is None <==> (chunks == ranges.len()
            && in_bounds(ranges, total)),
{
    crate::merge::lemma_first_fault(ranges, crate::merge::Fault::Inverted, total);
    crate::merge::lemma_first_fault(ranges, crate::merge::Fault::Below, total);
    crate::merge::lemma_first_fault(ranges, crate::merge::Fault::Above, total);
    if crate::merge::rejection(total, ranges, chunks) is None {
        assert forall|i: int| 0 <= i < ranges.len() implies 1 <= (#[trigger] ranges[i]).start
            <= ranges[i].end <= total by {
            assert(!crate::merge::has_fault(ranges[i], crate::merge::Fault::Inverted, total));
            assert(!crate::merge::has_fault(ranges[i], crate::merge::Fault::Below, total));
            assert(!crate::merge::has_fault(ranges[i], crate::merge::Fault::Above, total));
        }
    }
}

/// By descending start, with no two equal.
pub open spec fn descending(list: Seq<Replacement>) -> bool {
    forall|i: int, j: int|
        0 <= i < j < list.len() ==> (#[trigger] list[j]).0.start < (#[trigger] list[i]).0.start
}

proof fn lemma_place(sorted: Seq<Replacement>, r: Replacement)
    requires
        descending(sorted),
        forall|i: int| 0 <= i < sorted.len() ==> (#[trigger] sorted[i]).0.start != r.0.start,
    ensures
        descending(crate::merge::place(sorted, r)),
        forall|x: Replacement|
            crate::merge::place(sorted, r).contains(x) <==> (x == r || sorted.contains(x)),
    decreases sorted.len(),
{
    let placed = crate::merge::place(sorted, r);
    if sorted.len() == 0 || r.0.start <= sorted.last().0.start {
        assert forall|x: Replacement| placed.contains(x) <==> (x == r || sorted.contains(x)) by {
            assert(placed[sorted.len() as int] == r);
            if sorted.contains(x) {
                let i = choose|i: int| 0 <= i < sorted.len() && sorted[i] == x;
                assert(placed[i] == x);
            }
            if placed.contains(x) {
                let i = choose|i: int| 0 <= i < placed.len() && placed[i] == x;
                if i < sorted.len() {
                    assert(sorted[i] == x);
                }
            }
        }
    } else {
        let init = sorted.drop_last();
        assert forall|i: int, j: int| 0 <= i < j < init.len() implies (#[trigger] init[j]).0.start
            < (#[trigger] init[i]).0.start by {
            assert(init[i] == sorted[i] && init[j] == sorted[j]);
        }
        assert forall|i: int| 0 <= i < init.len() implies (#[trigger] init[i]).0.start
            != r.0.start by {
            assert(init[i] == sorted[i]);
        }
        lemma_place(init, r);
        let head = crate::merge::place(init, r);
        assert forall|i: int, j: int| 0 <= i < j < placed.len() implies (#[trigger] placed[j]).0.start
            < (#[trigger] placed[i]).0.start by {
            if j < head.len() {
                assert(placed[i] == head[i] && placed[j] == head[j]);
            } else {
                assert(placed[i] == head[i]);
                assert(head.contains(head[i]));
                if head[i] != r {
                    assert(init.contains(head[i]));
                    let k = choose|k: int| 0 <= k < init.len() && init[k] == head[i];
                    assert(sorted[k] == head[i]);
                }
            }
        }
        assert forall|x: Replacement| placed.contains(x) <==> (x == r || sorted.contains(x)) by {
            assert(placed[head.len() as int] == sorted.last());
            assert(sorted[sorted.len() - 1] == sorted.last());
            if head.contains(x) {
                let i = choose|i: int| 0 <= i < head.len() && head[i] == x;
                assert(placed[i] == x);
            }
            if init.contains(x) {
                let i = choose|i: int| 0 <= i < init.len() && init[i] == x;
                assert(sorted[i] == x);
            }
            if placed.contains(x) {
                let i = choose|i: int| 0 <= i < placed.len() && placed[i] == x;
                if i < head.len() {
                    assert(head[i] == x);
                    assert(head.contains(x));
                }
            }
            if sorted.contains(x) && x != sorted.last() {
                let i = choose|i: int| 0 <= i < sorted.len() && sorted[i] == x;
                assert(init[i] == x);
                assert(init.contains(x));
            }
        }
    }
}

/// Starts that differ from one another.
pub open spec fn distinct_starts(list: Seq<Replacement>) -> bool {
    forall|i: int, j: int|
        0 <= i < j < list.len() ==> (#[trigger] list[i]).0.start != (#[trigger] list[j]).0.start
}

pub proof fn lemma_bottom_up(list: Seq<Replacement>)
    requires
        distinct_starts(list),
    ensures
        descending(crate::merge::bottom_up(list)),
        crate::merge::bottom_up(list).len() == list.len(),
        forall|x: Replacement| crate::merge::bottom_up(list).contains(x) <==> list.contains(x),
    decreases list.len(),
{
    if list.len() > 0 {
        let init = list.drop_last();
        assert forall|i: int, j: int| 0 <= i < j < init.len() implies (#[trigger] init[i]).0.start
            != (#[trigger] init[j]).0.start by {
            assert(init[i] == list[i] && init[j] == list[j]);
        }
        lemma_bottom_up(init);
        let sorted = crate::merge::bottom_up(init);
        assert forall|i: int| 0 <= i < sorted.len() implies (#[trigger] sorted[i]).0.start
            != list.last().0.start by {
            assert(sorted.contains(sorted[i]));
            assert(init.contains(sorted[i]));
            let k = choose|k: int| 0 <= k < init.len() && init[k] == sorted[i];
            assert(list[k] == sorted[i]);
        }
        lemma_place(sorted, list.last());
        lemma_place_len(sorted, list.last());
        assert forall|x: Replacement| crate::merge::bottom_up(list).contains(x) <==> list.contains(
            x,
        ) by {
            assert(list[list.len() - 1] == list.last());
            if init.contains(x) {
                let i = choose|i: int| 0 <= i < init.len() && init[i] == x;
                assert(list[i] == x);
            }
            if list.contains(x) && x != list.last() {
                let i = choose|i: int| 0 <= i < list.len() && list[i] == x;
                assert(init[i] == x);
                assert(init.contains(x));
            }
        }
    }
}

proof fn lemma_place_len(sorted: Seq<Replacement>, r: Replacement)
    ensures
        crate::merge::place(sorted, r).len() == sorted.len() + 1,
    decreases sorted.len(),
{
    if sorted.len() > 0 && sorted.last().0.start < r.0.start {
        lemma_place_len(sorted.drop_last(), r);
    }
}

/// A descending list is determined by its elements.
pub proof fn lemma_descending_unique(a: Seq<Replacement>, b: Seq<Replacement>)
    requires
        descending(a),
        descending(b),
        forall|x: Replacement| a.contains(x) <==> b.contains(x),
    ensures
        a == b,
    decreases a.len(),
{
    if a.len() == 0 {
        if b.len() > 0 {
            assert(b.contains(b[0]));
        }
        assert(a == b);
    } else {
        assert(a.contains(a[0]));
        let j = choose|j: int| 0 <= j < b.len() && b[j] == a[0];
        assert(b.contains(b[0]));
        let i = choose|i: int| 0 <= i < a.len() && a[i] == b[0];
        assert(a[0] == b[0]);
        let ra = a.skip(1);
        let rb = b.skip(1);
        assert forall|x: Replacement| ra.contains(x) <==> rb.contains(x) by {
            if ra.contains(x) {
                let k = choose|k: int| 0 <= k < ra.len() && ra[k] == x;
                assert(a[k + 1] == x);
                assert(b.contains(x));
                let l = choose|l: int| 0 <= l < b.len() && b[l] == x;
                assert(rb[l - 1] == x);
            }
            if rb.contains(x) {
                let k = choose|k: int| 0 <= k < rb.len() && rb[k] == x;
                assert(b[k + 1] == x);
                assert(a.contains(x));
                let l = choose|l: int| 0 <= l < a.len() && a[l] == x;
                assert(ra[l - 1] == x);
            }
        }
        assert forall|p: int, q: int| 0 <= p < q < ra.len() implies (#[trigger] ra[q]).0.start
            < (#[trigger] ra[p]).0.start by {
            assert(ra[p] == a[p + 1] && ra[q] == a[q + 1]);
        }
        assert forall|p: int, q: int| 0 <= p < q < rb.len() implies (#[trigger] rb[q]).0.start
            < (#[trigger] rb[p]).0.start by {
            assert(rb[p] == b[p + 1] && rb[q] == b[q + 1]);
        }
        lemma_descending_unique(ra, rb);
        assert(a == seq![a[0]] + ra);
        assert(b == seq![b[0]] + rb);
    }
}

/// `order` names every position below `n` once.
pub open spec fn is_order(order: Seq<int>, n: nat) -> bool {
    &&& order.len() == n
    &&& forall|k: int| 0 <= k < n ==> 0 <= (#[trigger] order[k]) < n
    &&& forall|k: int, l: int| 0 <= k < l < n ==> (#[trigger] order[k]) != (#[trigger] order[l])
    &&& forall|i: int| 0 <= i < n ==> #[trigger] order.contains(i)
}

/// The elements of `list` in another order.
pub open spec fn reordered<A>(list: Seq<A>, order: Seq<int>) -> Seq<A> {
    Seq::new(order.len(), |k: int| list[order[k]])
}

/// Where no line belongs to two ranges, the order in which ranges and chunks are given
/// does not matter.
pub proof fn order_does_not_matter(
    original: Seq<char>,
    ranges: Seq<LineRange>,
    chunks: Seq<Seq<char>>,
    order: Seq<int>,
)
    requires
        chunks.len() == ranges.len(),
        in_bounds(ranges, crate::text::lines(original).len()),
        disjoint(ranges),
        is_order(order, ranges.len()),
    ensures
        crate::merge::merged(original, reordered(ranges, order), reordered(chunks, order))
            == crate::merge::merged(original, ranges, chunks),
{
    let total = crate::text::lines(original).len();
    let ranges2 = reordered(ranges, order);
    let chunks2 = reordered(chunks, order);
    let list = crate::merge::replacements(ranges, chunks);
    let list2 = crate::merge::replacements(ranges2, chunks2);
    accepted_iff_in_bounds(total, ranges, chunks.len());
    accepted_iff_in_bounds(total, ranges2, chunks2.len());
    assert forall|i: int| 0 <= i < ranges2.len() implies 1 <= (#[trigger] ranges2[i]).start
        <= ranges2[i].end <= total by {
        assert(ranges2[i] == ranges[order[i]]);
    }
    assert forall|i: int, j: int| 0 <= i < j < list.len() implies (#[trigger] list[i]).0.start
        != (#[trigger] list[j]).0.start by {
        assert(list[i].0 == ranges[i] && list[j].0 == ranges[j]);
    }
    assert forall|i: int, j: int| 0 <= i < j < list2.len() implies (#[trigger] list2[i]).0.start
        != (#[trigger] list2[j]).0.start by {
        assert(list2[i].0 == ranges[order[i]] && list2[j].0 == ranges[order[j]]);
    }
    lemma_bottom_up(list);
    lemma_bottom_up(list2);
    let a = crate::merge::bottom_up(list);
    let b = crate::merge::bottom_up(list2);
    assert forall|x: Replacement| a.contains(x) <==> b.contains(x) by {
        if list.contains(x) {
            let i = choose|i: int| 0 <= i < list.len() && list[i] == x;
            assert(order.contains(i));
            let k = choose|k: int| 0 <= k < order.len() && order[k] == i;
            assert(list2[k] == x);
            assert(list2.contains(x));
        }
        if list2.contains(x) {
            let k = choose|k: int| 0 <= k < list2.len() && list2[k] == x;
            assert(list[order[k]] == x);
            assert(list.contains(x));
        }
    }
    lemma_descending_unique(a, b);
}

/// The lines from `from` on, with each range of an ascending list replaced in passing.
pub open spec fn substituted(
    lines: Seq<Seq<char>>,
    from: int,
    list: Seq<Replacement>,
) -> Seq<Seq<char>>
    decreases list.len(),
{
    if list.len() == 0 {
        lines.skip(from)
    } else {
        lines.subrange(from, list[0].0.start - 1) + list[0].1 + substituted(
            lines,
            list[0].0.end as int,
            list.skip(1),
        )
    }
}

/// The replacements of an ascending list that ends above line `limit`.
spec fn ascending_list(list: Seq<Replacement>, from: int, limit: int) -> bool {
    &&& forall|i: int|
        0 <= i < list.len() ==> from < (#[trigger] list[i]).0.start <= list[i].0.end <= limit
    &&& forall|i: int, j: int|
        0 <= i < j < list.len() ==> (#[trigger] list[i]).0.end < (#[trigger] list[j]).0.start
}

proof fn lemma_substituted_last(
    lines: Seq<Seq<char>>,
    from: int,
    init: Seq<Replacement>,
    last: Replacement,
)
    requires
        0 <= from < last.0.start <= last.0.end <= lines.len(),
        ascending_list(init, from, last.0.start - 1),
    ensures
        substituted(crate::merge::replaced(lines, last), from, init) == substituted(
            lines,
            from,
            init.push(last),
        ),
    decreases init.len(),
{
    let after = crate::merge::replaced(lines, last);
    let all = init.push(last);
    if init.len() == 0 {
        assert(all.skip(1) == Seq::<Replacement>::empty());
        assert(substituted(lines, last.0.end as int, all.skip(1)) == lines.skip(
            last.0.end as int,
        ));
        assert(after.skip(from) == lines.subrange(from, last.0.start - 1) + last.1 + lines.skip(
            last.0.end as int,
        ));
    } else {
        let head = init[0];
        let rest = init.skip(1);
        assert(all.skip(1) == rest.push(last));
        assert forall|i: int| 0 <= i < rest.len() implies head.0.end < (#[trigger] rest[i]).0.start
            <= rest[i].0.end <= last.0.start - 1 by {
            assert(rest[i] == init[i + 1]);
        }
        assert forall|i: int, j: int| 0 <= i < j < rest.len() implies (#[trigger] rest[i]).0.end
            < (#[trigger] rest[j]).0.start by {
            assert(rest[i] == init[i + 1] && rest[j] == init[j + 1]);
        }
        lemma_substituted_last(lines, head.0.end as int, rest, last);
        assert(after.subrange(from, head.0.start - 1) == lines.subrange(from, head.0.start - 1));
    }
}

proof fn lemma_bottom_up_ascending(list: Seq<Replacement>, limit: int)
    requires
        ascending_list(list, 0, limit),
    ensures
        crate::merge::bottom_up(list) == list.reverse(),
    decreases list.len(),
{
    if list.len() > 0 {
        let init = list.drop_last();
        lemma_bottom_up_ascending(init, limit);
        let sorted = init.reverse();
        assert forall|k: int| 0 <= k < sorted.len() implies (#[trigger] sorted[k]).0.start
            < list.last().0.start by {
            assert(sorted[k] == list[init.len() - 1 - k]);
        }
        crate::merge::lemma_place_at(sorted, list.last(), 0);
        assert(sorted.insert(0, list.last()) == list.reverse());
    } else {
        assert(crate::merge::bottom_up(list) == list.reverse());
    }
}

proof fn lemma_bottom_up_is_top_down(lines: Seq<Seq<char>>, list: Seq<Replacement>)
    requires
        ascending_list(list, 0, lines.len() as int),
    ensures
        crate::merge::all_fit(lines, list.reverse()),
        crate::merge::replaced_all(lines, list.reverse()) == substituted(lines, 0, list),
    decreases list.len(),
{
    let down = list.reverse();
    if list.len() == 0 {
        assert(lines.skip(0) == lines);
    } else {
        let init = list.drop_last();
        let last = list.last();
        let after = crate::merge::replaced(lines, last);
        assert(down[0] == last);
        assert(down.skip(1) == init.reverse());
        assert forall|i: int| 0 <= i < init.len() implies 0 < (#[trigger] init[i]).0.start
            <= init[i].0.end <= last.0.start - 1 by {
            assert(init[i] == list[i]);
            assert(last == list[list.len() - 1]);
        }
        assert(last == list[list.len() - 1]);
        lemma_bottom_up_is_top_down(after, init);
        assert(list == init.push(last));
        lemma_substituted_last(lines, 0, init, last);
    }
}

/// Applying the ranges from the bottom up replaces each range where it stood in the
/// original: the result is the original read from the top, with the lines outside the
/// ranges kept and each range replaced by the lines of its chunk.
pub proof fn ascending_ranges_are_replaced_in_place(
    original: Seq<char>,
    ranges: Seq<LineRange>,
    chunks: Seq<Seq<char>>,
)
    requires
        ranges.len() > 0,
        chunks.len() == ranges.len(),
        in_bounds(ranges, crate::text::lines(original).len()),
        ascending(ranges),
    ensures
        crate::merge::merged(original, ranges, chunks) == Ok::<Seq<char>, MergeError>(
            crate::merge::text_of_lines(
                substituted(
                    crate::text::lines(original),
                    0,
                    crate::merge::replacements(ranges, chunks),
                ),
                crate::merge::ends_with_newline(original),
            ),
        ),
{
    let lines = crate::text::lines(original);
    let list = crate::merge::replacements(ranges, chunks);
    accepted_iff_in_bounds(lines.len(), ranges, chunks.len());
    lemma_ascending_list(ranges, chunks, lines.len());
    lemma_bottom_up_ascending(list, lines.len() as int);
    lemma_bottom_up_is_top_down(lines, list);
}

proof fn lemma_ascending_list(ranges: Seq<LineRange>, chunks: Seq<Seq<char>>, total: nat)
    requires
        in_bounds(ranges, total),
        ascending(ranges),
    ensures
        ascending_list(crate::merge::replacements(ranges, chunks), 0, total as int),
{
    let list = crate::merge::replacements(ranges, chunks);
    assert forall|i: int| 0 <= i < list.len() implies 0 < (#[trigger] list[i]).0.start
        <= list[i].0.end <= total by {
        assert(list[i].0 == ranges[i]);
    }
    assert forall|i: int, j: int| 0 <= i < j < list.len() implies (#[trigger] list[i]).0.end
        < (#[trigger] list[j]).0.start by {
        assert(list[i].0 == ranges[i] && list[j].0 == ranges[j]);
    }
}

proof fn lemma_descending_fits(lines: Seq<Seq<char>>, down: Seq<Replacement>)
    requires
        down.len() > 0 ==> down[0].0.end <= lines.len(),
        forall|i: int| 0 <= i < down.len() ==> 1 <= (#[trigger] down[i]).0.start <= down[i].0.end,
        forall|i: int, j: int|
            0 <= i < j < down.len() ==> (#[trigger] down[j]).0.end < (#[trigger] down[i]).0.start,
    ensures
        crate::merge::all_fit(lines, down),
    decreases down.len(),
{
    if down.len() > 0 {
        let after = crate::merge::replaced(lines, down[0]);
        let rest = down.skip(1);
        assert(after.len() >= down[0].0.start - 1);
        assert forall|i: int| 0 <= i < rest.len() implies 1 <= (#[trigger] rest[i]).0.start
            <= rest[i].0.end by {
            assert(rest[i] == down[i + 1]);
        }
        assert forall|i: int, j: int| 0 <= i < j < rest.len() implies (#[trigger] rest[j]).0.end
            < (#[trigger] rest[i]).0.start by {
            assert(rest[i] == down[i + 1] && rest[j] == down[j + 1]);
        }
        if rest.len() > 0 {
            assert(rest[0] == down[1]);
        }
        lemma_descending_fits(after, rest);
    }
}

/// Where no line belongs to two ranges, every replacement finds the lines it needs,
/// whatever the chunks hold and in whatever order they are given.
pub proof fn disjoint_ranges_fit(
    original: Seq<char>,
    ranges: Seq<LineRange>,
    chunks: Seq<Seq<char>>,
)
    requires
        disjoint(ranges),
    ensures
        crate::merge::fits(original, ranges, chunks),
{
    let lines = crate::text::lines(original);
    accepted_iff_in_bounds(lines.len(), ranges, chunks.len());
    if crate::merge::rejection(lines.len(), ranges, chunks.len()) is None {
        let list = crate::merge::replacements(ranges, chunks);
        assert forall|i: int, j: int| 0 <= i < j < list.len() implies (#[trigger] list[i]).0.start
            != (#[trigger] list[j]).0.start by {
            assert(list[i].0 == ranges[i] && list[j].0 == ranges[j]);
        }
        lemma_bottom_up(list);
        let down = crate::merge::bottom_up(list);
        assert forall|i: int| 0 <= i < down.len() implies 1 <= (#[trigger] down[i]).0.start
            <= down[i].0.end <= lines.len() by {
            assert(down.contains(down[i]));
            assert(list.contains(down[i]));
            let k = choose|k: int| 0 <= k < list.len() && list[k] == down[i];
            assert(list[k].0 == ranges[k]);
        }
        assert forall|i: int, j: int| 0 <= i < j < down.len() implies (#[trigger] down[j]).0.end
            < (#[trigger] down[i]).0.start by {
            assert(down.contains(down[i]) && down.contains(down[j]));
            assert(list.contains(down[i]) && list.contains(down[j]));
            let k = choose|k: int| 0 <= k < list.len() && list[k] == down[i];
            let l = choose|l: int| 0 <= l < list.len() && list[l] == down[j];
            assert(list[k].0 == ranges[k] && list[l].0 == ranges[l]);
        }
        lemma_descending_fits(lines, down);
    }
}

pub proof fn lemma_bottom_up_from(list: Seq<Replacement>, x: Replacement)
    requires
        crate::merge::bottom_up(list).contains(x),
    ensures
        list.contains(x),
    decreases list.len(),
{
    if list.len() > 0 {
        let init = list.drop_last();
        lemma_place_from(crate::merge::bottom_up(init), list.last(), x);
        assert(list[list.len() - 1] == list.last());
        if x != list.last() {
            lemma_bottom_up_from(init, x);
            let i = choose|i: int| 0 <= i < init.len() && init[i] == x;
            assert(list[i] == x);
        }
    }
}

proof fn lemma_place_from(sorted: Seq<Replacement>, r: Replacement, x: Replacement)
    requires
        crate::merge::place(sorted, r).contains(x),
    ensures
        x == r || sorted.contains(x),
    decreases sorted.len(),
{
    let placed = crate::merge::place(sorted, r);
    let i = choose|i: int| 0 <= i < placed.len() && placed[i] == x;
    if sorted.len() == 0 || r.0.start <= sorted.last().0.start {
        if i < sorted.len() {
            assert(sorted[i] == x);
        }
    } else {
        let init = sorted.drop_last();
        let head = crate::merge::place(init, r);
        if i < head.len() {
            assert(head[i] == x);
            assert(head.contains(x));
            lemma_place_from(init, r, x);
            if x != r {
                let k = choose|k: int| 0 <= k < init.len() && init[k] == x;
                assert(sorted[k] == x);
            }
        } else {
            assert(sorted[sorted.len() - 1] == x);
        }
    }
}

/// No line of the text ends with a carriage return.
pub open spec fn no_crlf(text: Seq<char>) -> bool {
    forall|i: int| 0 <= i < text.len() - 1 && #[trigger] text[i] == '\r' ==> text[i + 1] != '\n'
}

/// A text whose lines end with a plain newline is given back by its lines.
pub proof fn lines_give_back_the_text(text: Seq<char>)
    requires
        no_crlf(text),
    ensures
        crate::merge::text_of_lines(
            crate::text::lines(text),
            crate::merge::ends_with_newline(text),
        ) == text,
    decreases text.len(),
{
    let all = crate::text::lines(text);
    let newline = crate::merge::ends_with_newline(text);
    if text.len() == 0 {
        assert(crate::merge::text_of_lines(all, newline) == text);
    } else {
        crate::text::lemma_find(text, '\n');
        let k = crate::text::find(text, '\n');
        if k >= text.len() {
            assert(!newline);
            assert(crate::merge::text_of_lines(all, newline) == text);
        } else {
            let head = text.take(k);
            let rest = text.skip(k + 1);
            assert(crate::text::without_cr(head) == head) by {
                if k > 0 {
                    assert(head.last() == text[k - 1]);
                }
            }
            assert forall|i: int| 0 <= i < rest.len() - 1 && #[trigger] rest[i] == '\r' implies rest[i
                + 1] != '\n' by {
                assert(text[i + k + 1] == rest[i]);
            }
            if rest.len() == 0 {
                assert(crate::text::lines(rest) == Seq::<Seq<char>>::empty());
                assert(all == seq![head]);
                assert(crate::text::join(all, seq!['\n']) == head);
                assert(head + seq!['\n'] == text);
            } else {
                lines_give_back_the_text(rest);
                let tail = crate::text::lines(rest);
                assert(tail.len() > 0);
                assert(all.skip(1) == tail);
                assert(rest.last() == text.last());
                let end = if newline {
                    seq!['\n']
                } else {
                    Seq::<char>::empty()
                };
                assert((head + seq!['\n'] + crate::text::join(tail, seq!['\n'])) + end == head
                    + seq!['\n'] + (crate::text::join(tail, seq!['\n']) + end));
                assert(head + seq!['\n'] + rest == text);
            }
        }
    }
}

proof fn lemma_same_lines_replaced(lines: Seq<Seq<char>>, list: Seq<Replacement>)
    requires
        forall|i: int|
            0 <= i < list.len() ==> 1 <= (#[trigger] list[i]).0.start <= list[i].0.end
                <= lines.len() && list[i].1 == lines.subrange(
                list[i].0.start - 1,
                list[i].0.end as int,
            ),
    ensures
        crate::merge::replaced_all(lines, list) == lines,
        crate::merge::all_fit(lines, list),
    decreases list.len(),
{
    if list.len() > 0 {
        assert(crate::merge::replaced(lines, list[0]) == lines);
        let rest = list.skip(1);
        assert forall|i: int| 0 <= i < rest.len() implies 1 <= (#[trigger] rest[i]).0.start
            <= rest[i].0.end <= lines.len() && rest[i].1 == lines.subrange(
            rest[i].0.start - 1,
            rest[i].0.end as int,
        ) by {
            assert(rest[i] == list[i + 1]);
        }
        lemma_same_lines_replaced(lines, rest);
    }
}

/// Replacing every range by the lines it already has gives the original back. The
/// ranges may overlap. Carriage returns at line ends do not survive a merge, so the
/// original must have none.
pub proof fn merging_own_lines_changes_nothing(
    original: Seq<char>,
    ranges: Seq<LineRange>,
    chunks: Seq<Seq<char>>,
)
    requires
        no_crlf(original),
        chunks.len() == ranges.len(),
        in_bounds(ranges, crate::text::lines(original).len()),
        forall|i: int|
            0 <= i < ranges.len() ==> crate::text::lines(#[trigger] chunks[i])
                == crate::text::lines(original).subrange(ranges[i].start - 1, ranges[i].end as int),
    ensures
        crate::merge::fits(original, ranges, chunks),
        crate::merge::merged(original, ranges, chunks) == Ok::<Seq<char>, MergeError>(original),
{
    let lines = crate::text::lines(original);
    let list = crate::merge::replacements(ranges, chunks);
    let down = crate::merge::bottom_up(list);
    accepted_iff_in_bounds(lines.len(), ranges, chunks.len());
    assert forall|i: int| 0 <= i < down.len() implies 1 <= (#[trigger] down[i]).0.start
        <= down[i].0.end <= lines.len() && down[i].1 == lines.subrange(
        down[i].0.start - 1,
        down[i].0.end as int,
    ) by {
        assert(down.contains(down[i]));
        lemma_bottom_up_from(list, down[i]);
        let k = choose|k: int| 0 <= k < list.len() && list[k] == down[i];
        assert(list[k].0 == ranges[k]);
        assert(list[k].1 == crate::text::lines(chunks[k]));
    }
    lemma_same_lines_replaced(lines, down);
    lines_give_back_the_text(original);
}

/// A merge keeps the newline at the end of the original. Where the original ends
/// without one, so does the result, unless its last line is empty.
pub proof fn newline_at_the_end_is_kept(
    original: Seq<char>,
    ranges: Seq<LineRange>,
    chunks: Seq<Seq<char>>,
)
    requires
        crate::merge::fits(original, ranges, chunks),
        crate::merge::merged(original, ranges, chunks) is Ok,
    ensures
        ({
            let text = crate::merge::merged(original, ranges, chunks)->Ok_0;
            let lines = crate::merge::replaced_all(
                crate::text::lines(original),
                crate::merge::bottom_up(crate::merge::replacements(ranges, chunks)),
            );
            &&& crate::merge::ends_with_newline(original) ==> crate::merge::ends_with_newline(text)
            &&& !crate::merge::ends_with_newline(original) && crate::merge::ends_with_newline(text)
                ==> lines.len() > 1 && lines.last().len() == 0
        }),
{
    let text = crate::merge::merged(original, ranges, chunks)->Ok_0;
    if ranges.len() > 0 {
        let list = crate::merge::replacements(ranges, chunks);
        let down = crate::merge::bottom_up(list);
        let start = crate::text::lines(original);
        let lines = crate::merge::replaced_all(start, down);
        if crate::merge::ends_with_newline(original) {
            assert(text.last() == '\n');
        } else {
            assert(text == crate::text::join(lines, seq!['\n']));
            crate::text::lemma_lines_have_no_newline(original);
            accepted_iff_in_bounds(start.len(), ranges, chunks.len());
            assert forall|i: int| 0 <= i < down.len() implies 1 <= (#[trigger] down[i]).0.start
                <= down[i].0.end && no_newlines(down[i].1) by {
                assert(down.contains(down[i]));
                lemma_bottom_up_from(list, down[i]);
                let k = choose|k: int| 0 <= k < list.len() && list[k] == down[i];
                assert(list[k].0 == ranges[k]);
                assert(list[k].1 == crate::text::lines(chunks[k]));
                crate::text::lemma_lines_have_no_newline(chunks[k]);
            }
            lemma_replaced_have_no_newline(start, down);
            lemma_join_last(lines);
        }
    }
}

/// None of the lines holds a newline.
pub open spec fn no_newlines(lines: Seq<Seq<char>>) -> bool {
    forall|i: int| 0 <= i < lines.len() ==> !(#[trigger] lines[i]).contains('\n')
}

proof fn lemma_replaced_have_no_newline(lines: Seq<Seq<char>>, list: Seq<Replacement>)
    requires
        no_newlines(lines),
        crate::merge::all_fit(lines, list),
        forall|i: int|
            0 <= i < list.len() ==> 1 <= (#[trigger] list[i]).0.start <= list[i].0.end
                && no_newlines(list[i].1),
    ensures
        no_newlines(crate::merge::replaced_all(lines, list)),
    decreases list.len(),
{
    if list.len() > 0 {
        let r = list[0];
        let after = crate::merge::replaced(lines, r);
        assert forall|i: int| 0 <= i < after.len() implies !(#[trigger] after[i]).contains('\n') by {
            let head = lines.take(r.0.start - 1);
            if i < head.len() {
                assert(after[i] == lines[i]);
            } else if i < head.len() + r.1.len() {
                assert(after[i] == r.1[i - head.len()]);
            } else {
                assert(after[i] == lines[i - head.len() - r.1.len() + r.0.end]);
            }
        }
        let rest = list.skip(1);
        assert forall|i: int| 0 <= i < rest.len() implies 1 <= (#[trigger] rest[i]).0.start
            <= rest[i].0.end && no_newlines(rest[i].1) by {
            assert(rest[i] == list[i + 1]);
        }
        lemma_replaced_have_no_newline(after, list.skip(1));
    }
}

pub proof fn lemma_join_last(lines: Seq<Seq<char>>)
    requires
        no_newlines(lines),
    ensures
        crate::merge::ends_with_newline(crate::text::join(lines, seq!['\n'])) ==> lines.len() > 1
            && lines.last().len() == 0,
    decreases lines.len(),
{
    let text = crate::text::join(lines, seq!['\n']);
    if lines.len() == 1 {
        if crate::merge::ends_with_newline(text) {
            assert(lines[0].contains(text.last()));
        }
    } else if lines.len() > 1 {
        let rest = lines.skip(1);
        lemma_join_last(rest);
        if crate::merge::ends_with_newline(text) {
            let tail = crate::text::join(rest, seq!['\n']);
            if tail.len() > 0 {
                assert(text.last() == tail.last());
            } else {
                if rest.len() == 1 {
                    assert(tail == rest[0]);
                    assert(lines.last() == rest[0]);
                } else {
                    assert(tail == rest[0] + seq!['\n'] + crate::text::join(
                        rest.skip(1),
                        seq!['\n'],
                    ));
                    assert(tail.len() >= 1);
                }
            }
        }
    }
}

} // verus!
