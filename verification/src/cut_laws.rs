//! What becomes of a file of which only some lines are fixed, in terms of its lines and the
//! fixed ones alone.
use crate::fix::{FixOutcome, FixResult, FixScope};
use crate::merge::{LineRange, Replacement};
use vstd::prelude::*;

verus! {

/// The lines from `from` on, with each range replaced by other lines.
pub open spec fn with_replaced(
    lines: Seq<Seq<char>>,
    from: int,
    ranges: Seq<LineRange>,
    news: Seq<Seq<Seq<char>>>,
) -> Seq<Seq<char>>
    decreases ranges.len(),
{
    if ranges.len() == 0 {
        lines.skip(from)
    } else {
        lines.subrange(from, ranges[0].start - 1) + news[0] + with_replaced(
            lines,
            ranges[0].end as int,
            ranges.skip(1),
            news.skip(1),
        )
    }
}

/// The new lines are the old ones but for lines of the ranges.
pub open spec fn differ_inside(
    lines: Seq<Seq<char>>,
    ranges: Seq<LineRange>,
    new_lines: Seq<Seq<char>>,
) -> bool {
    exists|news: Seq<Seq<Seq<char>>>|
        news.len() == ranges.len() && new_lines == #[trigger] with_replaced(lines, 0, ranges, news)
}

/// The ranges follow one another in a file of so many lines, and there are some.
pub open spec fn follow_each_other(ranges: Seq<LineRange>, total: nat) -> bool {
    &&& ranges.len() > 0
    &&& forall|i: int|
        0 <= i < ranges.len() ==> 1 <= (#[trigger] ranges[i]).start <= ranges[i].end <= total
    &&& forall|i: int, j: int|
        0 <= i < j < ranges.len() ==> (#[trigger] ranges[i]).end < (#[trigger] ranges[j]).start
}

proof fn lemma_with_replaced(
    lines: Seq<Seq<char>>,
    from: int,
    ranges: Seq<LineRange>,
    news: Seq<Seq<Seq<char>>>,
    list: Seq<Replacement>,
)
    requires
        list.len() == ranges.len(),
        news.len() == ranges.len(),
        forall|i: int| 0 <= i < list.len() ==> #[trigger] list[i] == (ranges[i], news[i]),
    ensures
        crate::merge_laws::substituted(lines, from, list) == with_replaced(
            lines,
            from,
            ranges,
            news,
        ),
    decreases ranges.len(),
{
    if ranges.len() > 0 {
        assert(list[0] == (ranges[0], news[0]));
        let rest = list.skip(1);
        assert forall|i: int| 0 <= i < rest.len() implies #[trigger] rest[i] == (
            ranges.skip(1)[i],
            news.skip(1)[i],
        ) by {
            assert(rest[i] == list[i + 1]);
        }
        lemma_with_replaced(lines, ranges[0].end as int, ranges.skip(1), news.skip(1), rest);
    }
}

proof fn lemma_differ_inside(
    lines: Seq<Seq<char>>,
    ranges: Seq<LineRange>,
    new_lines: Seq<Seq<char>>,
)
    requires
        follow_each_other(ranges, lines.len()),
    ensures
        crate::inside::changed_inside(lines, ranges, new_lines) <==> differ_inside(
            lines,
            ranges,
            new_lines,
        ),
{
    crate::fix_laws::sorted_ranges_follow(ranges, lines.len());
    if crate::inside::changed_inside(lines, ranges, new_lines) {
        let list = choose|list: Seq<Replacement>| #[trigger]
            crate::inside::replaces(list, ranges) && new_lines == crate::merge_laws::substituted(
                lines,
                0,
                list,
            );
        let news = Seq::new(list.len(), |i: int| list[i].1);
        lemma_with_replaced(lines, 0, ranges, news, list);
        assert(new_lines == with_replaced(lines, 0, ranges, news));
    }
    if differ_inside(lines, ranges, new_lines) {
        let news = choose|news: Seq<Seq<Seq<char>>>|
            news.len() == ranges.len() && new_lines == #[trigger] with_replaced(
                lines,
                0,
                ranges,
                news,
            );
        let list = Seq::new(ranges.len(), |i: int| (ranges[i], news[i]));
        lemma_with_replaced(lines, 0, ranges, news, list);
        assert(crate::inside::replaces(list, ranges));
    }
}

/// Skipping a file that would stay as it is, and writing it otherwise.
pub open spec fn written_if_new(contents: Seq<char>, text: Seq<char>) -> FixResult {
    if text == contents {
        FixResult::Skip
    } else {
        FixResult::Write(text)
    }
}

/// Where edits were applied and the fixed content differs from the old only in lines of the
/// ranges, line ends and all, the file gets it as it is.
pub proof fn fixed_lines_of_the_ranges_are_taken_over(
    contents: Seq<char>,
    ranges: Vec<LineRange>,
    applied: Seq<bool>,
    fixed: Seq<char>,
)
    requires
        follow_each_other(ranges@, crate::text::lines(contents).len()),
        applied.contains(true),
        fixed != contents,
        differ_inside(
            crate::text::raw_lines(contents),
            ranges@,
            crate::text::raw_lines(fixed),
        ),
    ensures
        crate::fix::fix_result(contents, FixScope::Lines(ranges), applied, fixed)
            == FixResult::Write(fixed),
{
    crate::text::lemma_raw_lines(contents);
    lemma_differ_inside(crate::text::raw_lines(contents), ranges@, crate::text::raw_lines(fixed));
    lemma_applied(applied);
}

proof fn lemma_applied(applied: Seq<bool>)
    requires
        applied.contains(true),
    ensures
        crate::fix::any_applied(applied),
{
    let i = choose|i: int| 0 <= i < applied.len() && applied[i] == true;
    assert(applied[i]);
}

/// Where line ends differ elsewhere, but the lines without their ends only in the ranges, the
/// file gets the fixed lines, with plain newlines between them, and ends with a newline
/// exactly if it did before.
pub proof fn fixed_lines_are_taken_over_without_their_ends(
    contents: Seq<char>,
    ranges: Vec<LineRange>,
    applied: Seq<bool>,
    fixed: Seq<char>,
)
    requires
        follow_each_other(ranges@, crate::text::lines(contents).len()),
        applied.contains(true),
        fixed != contents,
        !differ_inside(
            crate::text::raw_lines(contents),
            ranges@,
            crate::text::raw_lines(fixed),
        ),
        differ_inside(crate::text::lines(contents), ranges@, crate::text::lines(fixed)),
    ensures
        crate::fix::fix_result(contents, FixScope::Lines(ranges), applied, fixed)
            == written_if_new(
            contents,
            crate::splice_laws::joined(
                crate::text::lines(fixed),
                crate::splice_laws::has_newline(contents),
            ),
        ),
{
    crate::text::lemma_raw_lines(contents);
    lemma_differ_inside(crate::text::raw_lines(contents), ranges@, crate::text::raw_lines(fixed));
    lemma_differ_inside(crate::text::lines(contents), ranges@, crate::text::lines(fixed));
    lemma_applied(applied);
    crate::splice_laws::lemma_joined(
        crate::text::lines(fixed),
        crate::splice_laws::has_newline(contents),
    );
}

/// Where the fixed lines differ outside the ranges too, and there are more or fewer of them,
/// it is unclear which belong to the ranges.
pub proof fn moved_lines_are_unclear(
    contents: Seq<char>,
    ranges: Vec<LineRange>,
    applied: Seq<bool>,
    fixed: Seq<char>,
)
    requires
        follow_each_other(ranges@, crate::text::lines(contents).len()),
        applied.contains(true),
        fixed != contents,
        !differ_inside(
            crate::text::raw_lines(contents),
            ranges@,
            crate::text::raw_lines(fixed),
        ),
        !differ_inside(crate::text::lines(contents), ranges@, crate::text::lines(fixed)),
        crate::text::lines(fixed).len() != crate::text::lines(contents).len(),
    ensures
        crate::fix::fix_result(contents, FixScope::Lines(ranges), applied, fixed) is Unclear,
{
    crate::text::lemma_raw_lines(contents);
    lemma_differ_inside(crate::text::raw_lines(contents), ranges@, crate::text::raw_lines(fixed));
    lemma_differ_inside(crate::text::lines(contents), ranges@, crate::text::lines(fixed));
    lemma_applied(applied);
}

/// A line, counted from zero, belongs to one of the ranges.
pub open spec fn belongs(ranges: Seq<LineRange>, line: int) -> bool {
    exists|i: int| 0 <= i < ranges.len() && (#[trigger] ranges[i]).start <= line + 1 <= ranges[i].end
}

/// The new line for each that belongs to the ranges, and the old line for every other.
pub open spec fn mixed(
    lines: Seq<Seq<char>>,
    ranges: Seq<LineRange>,
    new_lines: Seq<Seq<char>>,
) -> Seq<Seq<char>> {
    Seq::new(lines.len(), |k: int| if belongs(ranges, k) { new_lines[k] } else { lines[k] })
}

/// A range counted from zero.
pub open spec fn cut_start(range: LineRange) -> int {
    crate::context_laws::larger(range.start - 1, 0)
}

/// The end of a range counted from zero, itself included.
pub open spec fn cut_end(range: LineRange) -> int {
    crate::context_laws::larger(range.end - 1, 0)
}

/// From so many lines, the ranges are cut that end among them and not before they start, in
/// their order.
pub proof fn ranges_are_cut_where_there_are_lines(ranges: Seq<LineRange>, n: nat)
    ensures
        crate::fix::cut_ranges(ranges, n) == ranges.filter(
            |r: LineRange| cut_start(r) <= cut_end(r) < n,
        ),
    decreases ranges.len(),
{
    reveal(Seq::filter);
    if ranges.len() > 0 {
        ranges_are_cut_where_there_are_lines(ranges.drop_last(), n);
    }
}

/// What is cut for a range is its lines, with a newline behind each.
pub proof fn chunks_are_the_lines_of_their_ranges(lines: Seq<Seq<char>>, ranges: Seq<LineRange>)
    requires
        forall|i: int|
            0 <= i < ranges.len() ==> cut_start(#[trigger] ranges[i]) <= cut_end(ranges[i])
                < lines.len(),
    ensures
        crate::fix::chunks(lines, ranges).len() == ranges.len(),
        forall|i: int|
            0 <= i < ranges.len() ==> #[trigger] crate::fix::chunks(lines, ranges)[i]
                == crate::splice_laws::joined(
                lines.subrange(cut_start(ranges[i]), cut_end(ranges[i]) + 1),
                true,
            ),
{
    assert forall|i: int| 0 <= i < ranges.len() implies #[trigger] crate::fix::chunks(
        lines,
        ranges,
    )[i] == crate::splice_laws::joined(
        lines.subrange(cut_start(ranges[i]), cut_end(ranges[i]) + 1),
        true,
    ) by {
        crate::splice_laws::lemma_joined(
            lines.subrange(cut_start(ranges[i]), cut_end(ranges[i]) + 1),
            true,
        );
    }
}

proof fn lemma_all_cut(ranges: Seq<LineRange>, n: nat)
    requires
        forall|i: int|
            0 <= i < ranges.len() ==> 1 <= (#[trigger] ranges[i]).start <= ranges[i].end <= n,
    ensures
        crate::fix::cut_ranges(ranges, n) == ranges,
    decreases ranges.len(),
{
    if ranges.len() > 0 {
        let init = ranges.drop_last();
        assert forall|i: int| 0 <= i < init.len() implies 1 <= (#[trigger] init[i]).start
            <= init[i].end <= n by {
            assert(init[i] == ranges[i]);
        }
        lemma_all_cut(init, n);
        assert(ranges[ranges.len() - 1] == ranges.last());
        assert(init.push(ranges.last()) == ranges);
    } else {
        assert(crate::fix::cut_ranges(ranges, n) == ranges);
    }
}

proof fn lemma_chunk_lines(new_lines: Seq<Seq<char>>, range: LineRange)
    requires
        1 <= range.start <= range.end <= new_lines.len(),
        forall|k: int|
            0 <= k < new_lines.len() ==> crate::undo_laws::is_line(#[trigger] new_lines[k]),
    ensures
        crate::text::lines(crate::fix::chunk(new_lines, range)) == new_lines.subrange(
            range.start - 1,
            range.end as int,
        ),
{
    let part = new_lines.subrange(range.start - 1, range.end as int);
    assert forall|k: int| 0 <= k < part.len() implies crate::undo_laws::is_line(
        #[trigger] part[k],
    ) by {
        assert(part[k] == new_lines[range.start - 1 + k]);
    }
    crate::undo_laws::texts_give_back_their_lines(part, true);
}

proof fn lemma_mixed(
    lines: Seq<Seq<char>>,
    from: int,
    ranges: Seq<LineRange>,
    new_lines: Seq<Seq<char>>,
    all: Seq<LineRange>,
    skipped: int,
)
    requires
        new_lines.len() == lines.len(),
        forall|k: int|
            0 <= k < new_lines.len() ==> crate::undo_laws::is_line(#[trigger] new_lines[k]),
        0 <= skipped <= all.len(),
        ranges == all.skip(skipped),
        follow_each_other(all, lines.len()),
        from == (if skipped == 0 {
            0
        } else {
            all[skipped - 1].end as int
        }),
    ensures
        crate::splice_laws::spliced(lines, from, ranges, crate::fix::chunks(new_lines, ranges))
            == mixed(lines, all, new_lines).skip(from),
    decreases ranges.len(),
{
    let chunks = crate::fix::chunks(new_lines, ranges);
    let whole = crate::splice_laws::spliced(lines, from, ranges, chunks);
    let goal = mixed(lines, all, new_lines).skip(from);
    assert(0 <= from <= lines.len());
    if ranges.len() == 0 {
        assert forall|k: int| 0 <= k < goal.len() implies whole[k] == goal[k] by {
            if belongs(all, from + k) {
                let i = choose|i: int|
                    0 <= i < all.len() && (#[trigger] all[i]).start <= from + k + 1 <= all[i].end;
                if i < skipped - 1 {
                    assert(all[i].end < all[skipped - 1].start);
                }
            }
        }
        assert(whole == goal);
    } else {
        let range = ranges[0];
        assert(range == all[skipped]);
        let rest = ranges.skip(1);
        assert(rest == all.skip(skipped + 1));
        assert(chunks.skip(1) == crate::fix::chunks(new_lines, rest));
        lemma_mixed(lines, range.end as int, rest, new_lines, all, skipped + 1);
        lemma_chunk_lines(new_lines, range);
        if skipped > 0 {
            assert(all[skipped - 1].end < all[skipped].start);
        }
        let head = lines.subrange(from, range.start - 1);
        let middle = new_lines.subrange(range.start - 1, range.end as int);
        let tail = mixed(lines, all, new_lines).skip(range.end as int);
        assert(whole == head + middle + tail);
        assert forall|k: int| 0 <= k < goal.len() implies whole[k] == goal[k] by {
            if k < head.len() {
                if belongs(all, from + k) {
                    let i = choose|i: int|
                        0 <= i < all.len() && (#[trigger] all[i]).start <= from + k + 1
                            <= all[i].end;
                    if i < skipped - 1 {
                        assert(all[i].end < all[skipped - 1].start);
                    }
                    if i > skipped {
                        assert(all[skipped].end < all[i].start);
                    }
                }
            } else if k < head.len() + middle.len() {
                assert(all[skipped].start <= from + k + 1 <= all[skipped].end);
                assert(belongs(all, from + k));
            } else {
                assert(whole[k] == tail[k - head.len() - middle.len()]);
            }
        }
        assert(whole == goal);
    }
}

/// Where the fixed lines differ outside the ranges too, but there are as many as before, the
/// fixed lines at the places of the ranges are merged into the file.
pub proof fn fixed_lines_are_merged_in_place(
    contents: Seq<char>,
    ranges: Vec<LineRange>,
    applied: Seq<bool>,
    fixed: Seq<char>,
)
    requires
        follow_each_other(ranges@, crate::text::lines(contents).len()),
        applied.contains(true),
        fixed != contents,
        !differ_inside(
            crate::text::raw_lines(contents),
            ranges@,
            crate::text::raw_lines(fixed),
        ),
        !differ_inside(crate::text::lines(contents), ranges@, crate::text::lines(fixed)),
        crate::text::lines(fixed).len() == crate::text::lines(contents).len(),
    ensures
        ({
            let chunks = crate::fix::chunks(crate::text::lines(fixed), ranges@);
            let merged = crate::merge::merged(contents, ranges@, chunks);
            &&& merged is Ok
            &&& crate::fix::fix_result(contents, FixScope::Lines(ranges), applied, fixed)
                == written_if_new(contents, merged->Ok_0)
        }),
{
    let lines = crate::text::lines(contents);
    let new_lines = crate::text::lines(fixed);
    crate::text::lemma_raw_lines(contents);
    lemma_differ_inside(crate::text::raw_lines(contents), ranges@, crate::text::raw_lines(fixed));
    lemma_differ_inside(lines, ranges@, new_lines);
    lemma_applied(applied);
    lemma_all_cut(ranges@, new_lines.len());
    let chunks = crate::fix::chunks(new_lines, ranges@);
    crate::splice_laws::chunks_take_the_place_of_their_ranges(contents, ranges@, chunks);
}

/// Where the fixed lines differ outside the ranges too, but there are as many as before, each
/// line of the ranges becomes the fixed line at its place, and every other line stays. The
/// file ends with a newline exactly if it did before.
pub proof fn fixed_lines_are_taken_over_one_by_one(
    contents: Seq<char>,
    ranges: Vec<LineRange>,
    applied: Seq<bool>,
    fixed: Seq<char>,
)
    requires
        follow_each_other(ranges@, crate::text::lines(contents).len()),
        applied.contains(true),
        fixed != contents,
        !differ_inside(
            crate::text::raw_lines(contents),
            ranges@,
            crate::text::raw_lines(fixed),
        ),
        !differ_inside(crate::text::lines(contents), ranges@, crate::text::lines(fixed)),
        crate::text::lines(fixed).len() == crate::text::lines(contents).len(),
        forall|k: int|
            0 <= k < crate::text::lines(fixed).len() && (#[trigger] crate::text::lines(
                fixed,
            )[k]).len() > 0 ==> crate::text::lines(fixed)[k][crate::text::lines(fixed)[k].len() - 1]
                != '\r',
    ensures
        crate::fix::fix_result(contents, FixScope::Lines(ranges), applied, fixed)
            == written_if_new(
            contents,
            crate::splice_laws::joined(
                mixed(crate::text::lines(contents), ranges@, crate::text::lines(fixed)),
                crate::splice_laws::has_newline(contents),
            ),
        ),
{
    let lines = crate::text::lines(contents);
    let new_lines = crate::text::lines(fixed);
    fixed_lines_are_merged_in_place(contents, ranges, applied, fixed);
    crate::text::lemma_lines_have_no_newline(fixed);
    assert forall|k: int| 0 <= k < new_lines.len() implies crate::undo_laws::is_line(
        #[trigger] new_lines[k],
    ) by {}
    let chunks = crate::fix::chunks(new_lines, ranges@);
    crate::splice_laws::chunks_take_the_place_of_their_ranges(contents, ranges@, chunks);
    assert(ranges@.skip(0) == ranges@);
    lemma_mixed(lines, 0, ranges@, new_lines, ranges@, 0);
    let all = mixed(lines, ranges@, new_lines);
    assert(all.skip(0) == all);
}

/// The ranges do not follow one another: one is not made of lines of the file, or two have a
/// line in common.
pub open spec fn do_not_follow(ranges: Seq<LineRange>, total: nat) -> bool {
    ||| exists|i: int|
        0 <= i < ranges.len() && !(1 <= (#[trigger] ranges[i]).start <= ranges[i].end <= total)
    ||| exists|i: int, j: int|
        0 <= i < j < ranges.len() && (#[trigger] ranges[i]).start <= (#[trigger] ranges[j]).end
            && ranges[j].start <= ranges[i].end
}

proof fn lemma_do_not_follow(lines: Seq<Seq<char>>, ranges: Seq<LineRange>, new_lines: Seq<Seq<char>>)
    requires
        do_not_follow(ranges, lines.len()),
    ensures
        !crate::inside::changed_inside(lines, ranges, new_lines),
{
    let sorted = crate::expand::by_start(ranges);
    let total = lines.len();
    crate::expand_laws::lemma_by_start(ranges);
    if crate::merge_laws::in_bounds(sorted, total) && crate::merge_laws::ascending(sorted) {
        assert forall|i: int| 0 <= i < ranges.len() implies 1 <= (#[trigger] ranges[i]).start
            <= ranges[i].end <= total by {
            assert(ranges.contains(ranges[i]));
            let k = choose|k: int| 0 <= k < sorted.len() && sorted[k] == ranges[i];
            assert(1 <= sorted[k].start <= sorted[k].end <= total);
        }
        let (i, j) = choose|i: int, j: int|
            0 <= i < j < ranges.len() && (#[trigger] ranges[i]).start <= (#[trigger] ranges[j]).end
                && ranges[j].start <= ranges[i].end;
        assert(ranges.contains(ranges[i]) && ranges.contains(ranges[j]));
        let a = choose|a: int| 0 <= a < sorted.len() && sorted[a] == ranges[i];
        let b = choose|b: int| 0 <= b < sorted.len() && sorted[b] == ranges[j];
        if ranges[i] == ranges[j] {
            assert forall|k: int, l: int|
                0 <= k < sorted.len() && 0 <= l < sorted.len() && k != l implies sorted[k]
                != sorted[l] by {
                if k < l {
                    assert(sorted[k].end < sorted[l].start);
                } else {
                    assert(sorted[l].end < sorted[k].start);
                }
            }
            assert(sorted.no_duplicates());
            sorted.lemma_multiset_has_no_duplicates();
            crate::order_laws::lemma_by_start_keeps_ranges(ranges);
            ranges.lemma_multiset_has_no_duplicates_conv();
            assert(ranges[i] != ranges[j]);
        } else if a < b {
            assert(sorted[a].end < sorted[b].start);
        } else {
            assert(sorted[b].end < sorted[a].start);
        }
    }
}

/// Where the ranges do not follow one another, and there are more or fewer fixed lines, it is
/// unclear which belong to the ranges. Otherwise those ranges whose lines are all there are
/// merged, each with the fixed lines at its place. If there are none the file stays.
pub proof fn ranges_that_do_not_follow_are_merged(
    contents: Seq<char>,
    ranges: Vec<LineRange>,
    applied: Seq<bool>,
    fixed: Seq<char>,
)
    requires
        applied.contains(true),
        fixed != contents,
        do_not_follow(ranges@, crate::text::lines(contents).len()),
    ensures
        ({
            let lines = crate::text::lines(contents);
            let new_lines = crate::text::lines(fixed);
            let cut = ranges@.filter(
                |r: LineRange| cut_start(r) <= cut_end(r) < new_lines.len(),
            );
            let chunks = crate::fix::chunks(new_lines, cut);
            let merged = crate::merge::merged(contents, cut, chunks);
            crate::fix::fix_result(contents, FixScope::Lines(ranges), applied, fixed) == (
            if new_lines.len() != lines.len() {
                FixResult::Unclear
            } else if cut.len() == 0 {
                FixResult::Skip
            } else if merged is Ok {
                written_if_new(contents, merged->Ok_0)
            } else {
                FixResult::Refused(merged->Err_0)
            })
        }),
{
    let new_lines = crate::text::lines(fixed);
    crate::text::lemma_raw_lines(contents);
    lemma_applied(applied);
    lemma_do_not_follow(
        crate::text::raw_lines(contents),
        ranges@,
        crate::text::raw_lines(fixed),
    );
    lemma_do_not_follow(crate::text::lines(contents), ranges@, new_lines);
    ranges_are_cut_where_there_are_lines(ranges@, new_lines.len());
}

proof fn lemma_same_ascending(a: Seq<LineRange>, b: Seq<LineRange>, total: nat)
    requires
        crate::inside::follow(a, total),
        crate::inside::follow(b, total),
        forall|x: LineRange| a.contains(x) <==> b.contains(x),
    ensures
        a == b,
    decreases a.len(),
{
    if a.len() == 0 {
        if b.len() > 0 {
            assert(b.contains(b[0]));
        }
        assert(a == b);
    } else {
        assert(a.contains(a[0]));
        assert(b.len() > 0);
        let m = a.len() - 1;
        let n = b.len() - 1;
        assert(a.contains(a[m]) && b.contains(b[n]));
        let i = choose|i: int| 0 <= i < b.len() && b[i] == a[m];
        let j = choose|j: int| 0 <= j < a.len() && a[j] == b[n];
        if i < n {
            assert(b[i].end < b[n].start);
            if j < m {
                assert(a[j].end < a[m].start);
            }
        }
        assert(a[m] == b[n]);
        let a2 = a.drop_last();
        let b2 = b.drop_last();
        lemma_follow_init(a, total);
        lemma_follow_init(b, total);
        assert forall|x: LineRange| a2.contains(x) <==> b2.contains(x) by {
            lemma_contains_init(a, total, x);
            lemma_contains_init(b, total, x);
        }
        lemma_same_ascending(a2, b2, total);
        assert(a == a2.push(a[m]));
        assert(b == b2.push(b[n]));
    }
}

proof fn lemma_follow_init(a: Seq<LineRange>, total: nat)
    requires
        a.len() > 0,
        crate::inside::follow(a, total),
    ensures
        crate::inside::follow(a.drop_last(), total),
{
    let init = a.drop_last();
    assert forall|i: int| 0 <= i < init.len() implies 1 <= (#[trigger] init[i]).start
        <= init[i].end <= total by {
        assert(init[i] == a[i]);
    }
    assert forall|i: int, j: int| 0 <= i < j < init.len() implies (#[trigger] init[i]).end < (
    #[trigger] init[j]).start by {
        assert(init[i] == a[i] && init[j] == a[j]);
    }
}

proof fn lemma_contains_init(a: Seq<LineRange>, total: nat, x: LineRange)
    requires
        a.len() > 0,
        crate::inside::follow(a, total),
    ensures
        a.drop_last().contains(x) <==> a.contains(x) && x != a.last(),
{
    let init = a.drop_last();
    if init.contains(x) {
        let i = choose|i: int| 0 <= i < init.len() && init[i] == x;
        assert(a[i] == x);
        assert(a[i].end < a[a.len() - 1].start);
    }
    if a.contains(x) && x != a.last() {
        let i = choose|i: int| 0 <= i < a.len() && a[i] == x;
        assert(init[i] == x);
    }
}

/// Where no line belongs to two ranges, it does not matter in which order they are given.
pub proof fn the_order_of_ranges_does_not_matter(
    contents: Seq<char>,
    ranges: Vec<LineRange>,
    other: Vec<LineRange>,
    order: Seq<int>,
    applied: Seq<bool>,
    fixed: Seq<char>,
)
    requires
        crate::merge_laws::in_bounds(ranges@, crate::text::lines(contents).len()),
        crate::merge_laws::disjoint(ranges@),
        crate::merge_laws::is_order(order, ranges@.len()),
        other@ == crate::merge_laws::reordered(ranges@, order),
    ensures
        crate::fix::fix_result(contents, FixScope::Lines(other), applied, fixed)
            == crate::fix::fix_result(contents, FixScope::Lines(ranges), applied, fixed),
{
    let lines = crate::text::lines(contents);
    let new_lines = crate::text::lines(fixed);
    let total = lines.len();
    let a = crate::expand::by_start(ranges@);
    let b = crate::expand::by_start(other@);
    crate::text::lemma_raw_lines(contents);
    assert forall|i: int, j: int|
        0 <= i < other@.len() && 0 <= j < other@.len() && i != j implies (#[trigger] other@[i]).end
        < (#[trigger] other@[j]).start || other@[j].end < other@[i].start by {
        assert(other@[i] == ranges@[order[i]] && other@[j] == ranges@[order[j]]);
    }
    assert forall|i: int| 0 <= i < other@.len() implies 1 <= (#[trigger] other@[i]).start
        <= other@[i].end <= total by {
        assert(other@[i] == ranges@[order[i]]);
    }
    crate::fix_laws::sorted_ranges_follow(ranges@, total);
    crate::fix_laws::sorted_ranges_follow(other@, total);
    crate::expand_laws::lemma_by_start(ranges@);
    crate::expand_laws::lemma_by_start(other@);
    assert forall|x: LineRange| a.contains(x) <==> b.contains(x) by {
        lemma_reordered_contains(ranges@, order, x);
    }
    lemma_same_ascending(a, b, total);
    if new_lines.len() == total {
        lemma_all_cut(ranges@, new_lines.len());
        lemma_all_cut(other@, new_lines.len());
        let chunks = crate::fix::chunks(new_lines, ranges@);
        crate::merge_laws::order_does_not_matter(contents, ranges@, chunks, order);
        assert(crate::fix::chunks(new_lines, other@) == crate::merge_laws::reordered(
            chunks,
            order,
        ));
    }
}

proof fn lemma_reordered_contains(ranges: Seq<LineRange>, order: Seq<int>, x: LineRange)
    requires
        crate::merge_laws::is_order(order, ranges.len()),
    ensures
        ranges.contains(x) <==> crate::merge_laws::reordered(ranges, order).contains(x),
{
    let other = crate::merge_laws::reordered(ranges, order);
    if other.contains(x) {
        let i = choose|i: int| 0 <= i < other.len() && other[i] == x;
        assert(ranges[order[i]] == x);
    }
    if ranges.contains(x) {
        let i = choose|i: int| 0 <= i < ranges.len() && ranges[i] == x;
        assert(order.contains(i));
        let k = choose|k: int| 0 <= k < order.len() && order[k] == i;
        assert(other[k] == x);
    }
}

/// Nothing is done where no edit was applied, where nothing changed, and where no lines were
/// asked for. A whole file gets the fixed content.
pub proof fn files_are_fixed_if_something_changed(
    contents: Seq<char>,
    scope: FixScope,
    applied: Seq<bool>,
    fixed: Seq<char>,
)
    ensures
        !applied.contains(true) || fixed == contents ==> crate::fix::fix_result(
            contents,
            scope,
            applied,
            fixed,
        ) is Skip,
        applied.contains(true) && fixed != contents && scope is WholeFile
            ==> crate::fix::fix_result(contents, scope, applied, fixed) == FixResult::Write(fixed),
        (scope matches FixScope::Lines(ranges) && ranges@.len() == 0) ==> crate::fix::fix_result(
            contents,
            scope,
            applied,
            fixed,
        ) is Skip,
{
    if applied.contains(true) {
        lemma_applied(applied);
    }
    if crate::fix::any_applied(applied) {
        let i = choose|i: int| 0 <= i < applied.len() && #[trigger] applied[i];
        assert(applied[i] == true);
    }
}

/// An outcome says what the result is, and of a text what it holds.
pub proof fn outcomes_say_what_the_result_is(result: FixResult, outcome: FixOutcome)
    requires
        crate::fix::is_outcome(result, outcome),
    ensures
        outcome is Skip <==> result is Skip,
        outcome is Unclear <==> result is Unclear,
        outcome is Refused <==> result is Refused,
        outcome is Write <==> result is Write,
        outcome matches FixOutcome::Refused(e) ==> result->Refused_0 == e,
        outcome matches FixOutcome::Write(text) ==> result->Write_0 == text@,
{
}

} // verus!
