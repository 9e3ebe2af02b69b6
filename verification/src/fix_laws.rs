//! What holds of the selection of issues and of fixed lines.
use crate::fix::{FixResult, FixScope};
use crate::merge::{LineRange, MergeError, Replacement};
use vstd::prelude::*;

verus! {

/// A line belongs to a range.
pub open spec fn has_line(range: LineRange, line: int) -> bool {
    range.start <= line <= range.end
}

/// An issue touches a range exactly if they have a line in common.
pub proof fn touching_means_a_common_line(range: LineRange, start_line: u32, end_line: u32)
    requires
        range.start <= range.end,
        start_line <= end_line,
    ensures
        crate::fix::touches(range, start_line, end_line) <==> exists|line: int|
            #[trigger] has_line(range, line) && start_line <= line && line <= end_line,
{
    if crate::fix::touches(range, start_line, end_line) {
        let line: int = if range.start <= start_line {
            start_line as int
        } else {
            range.start as int
        };
        assert(has_line(range, line));
    }
}

/// The ranges that are cut out are among those given, in the same order.
pub proof fn cutting_keeps_the_order(ranges: Seq<LineRange>, n: nat)
    ensures
        forall|k: int|
            0 <= k < crate::fix::cut_ranges(ranges, n).len() ==> ranges.contains(
                #[trigger] crate::fix::cut_ranges(ranges, n)[k],
            ) && crate::fix::can_cut(crate::fix::cut_ranges(ranges, n)[k], n),
        crate::merge_laws::ascending(ranges) ==> crate::merge_laws::ascending(
            crate::fix::cut_ranges(ranges, n),
        ),
        crate::merge_laws::disjoint(ranges) ==> crate::merge_laws::disjoint(
            crate::fix::cut_ranges(ranges, n),
        ),
    decreases ranges.len(),
{
    if ranges.len() > 0 {
        let before = ranges.drop_last();
        let cut = crate::fix::cut_ranges(ranges, n);
        let cut_before = crate::fix::cut_ranges(before, n);
        cutting_keeps_the_order(before, n);
        assert forall|k: int| 0 <= k < cut.len() implies ranges.contains(#[trigger] cut[k])
            && crate::fix::can_cut(cut[k], n) by {
            if k < cut_before.len() {
                assert(cut[k] == cut_before[k]);
                let i = choose|i: int| 0 <= i < before.len() && before[i] == cut_before[k];
                assert(ranges[i] == cut[k]);
            } else {
                assert(ranges[ranges.len() - 1] == cut[k]);
            }
        }
        if crate::merge_laws::ascending(ranges) {
            assert forall|i: int, j: int| 0 <= i < j < before.len() implies (
            #[trigger] before[i]).end < (#[trigger] before[j]).start by {
                assert(ranges[i].end < ranges[j].start);
            }
            assert forall|i: int, j: int| 0 <= i < j < cut.len() implies (#[trigger] cut[i]).end
                < (#[trigger] cut[j]).start by {
                if j < cut_before.len() {
                    assert(cut_before[i].end < cut_before[j].start);
                } else {
                    assert(cut[i] == cut_before[i]);
                    let k = choose|k: int| 0 <= k < before.len() && before[k] == cut_before[i];
                    assert(ranges[k].end < ranges[ranges.len() - 1].start);
                }
            }
        }
        if crate::merge_laws::disjoint(ranges) {
            assert forall|i: int, j: int|
                0 <= i < before.len() && 0 <= j < before.len() && i != j implies (
            #[trigger] before[i]).end < (#[trigger] before[j]).start || before[j].end
                < before[i].start by {
                assert(ranges[i] == before[i] && ranges[j] == before[j]);
            }
            assert forall|i: int, j: int| 0 <= i < cut.len() && 0 <= j < cut.len() && i != j implies (
            #[trigger] cut[i]).end < (#[trigger] cut[j]).start || cut[j].end < cut[i].start by {
                if i < cut_before.len() && j < cut_before.len() {
                    assert(cut[i] == cut_before[i] && cut[j] == cut_before[j]);
                } else {
                    let m = if i < j { i } else { j };
                    assert(cut[m] == cut_before[m]);
                    let k = choose|k: int| 0 <= k < before.len() && before[k] == cut_before[m];
                    assert(ranges[k] == cut[m]);
                    assert(ranges[ranges.len() - 1] == ranges.last());
                }
            }
        }
    }
}

/// Nothing is taken over if no edit was applied, if the edits change nothing, or if there
/// are no lines to take: then the file stays as it is.
pub proof fn without_fixed_lines_the_file_stays(
    contents: Seq<char>,
    scope: FixScope,
    applied: Seq<bool>,
    fixed: Seq<char>,
)
    requires
        fixed == contents || (forall|i: int| 0 <= i < applied.len() ==> !#[trigger] applied[i])
            || (scope matches FixScope::Lines(ranges) && ranges@.len() == 0),
    ensures
        crate::fix::fix_result(contents, scope, applied, fixed) is Skip,
{
}

/// A file that is written gets another content than it has.
pub proof fn written_files_change(
    contents: Seq<char>,
    scope: FixScope,
    applied: Seq<bool>,
    fixed: Seq<char>,
)
    ensures
        crate::fix::fix_result(contents, scope, applied, fixed) matches FixResult::Write(text)
            ==> text != contents,
{
}

/// A file that is fixed as a whole gets the fixed content.
pub proof fn whole_files_are_fixed(
    contents: Seq<char>,
    scope: FixScope,
    applied: Seq<bool>,
    fixed: Seq<char>,
)
    requires
        scope is WholeFile,
        crate::fix::any_applied(applied),
        fixed != contents,
    ensures
        crate::fix::fix_result(contents, scope, applied, fixed) == FixResult::Write(fixed),
{
}

/// Where no line belongs to two ranges, they follow one another when they are sorted.
pub proof fn sorted_ranges_follow(ranges: Seq<LineRange>, total: nat)
    requires
        crate::merge_laws::in_bounds(ranges, total),
        crate::merge_laws::disjoint(ranges),
    ensures
        crate::inside::follow(crate::expand::by_start(ranges), total),
        crate::merge_laws::ascending(ranges) ==> crate::expand::by_start(ranges) == ranges,
{
    let sorted = crate::expand::by_start(ranges);
    crate::expand_laws::lemma_by_start(ranges);
    crate::order_laws::lemma_by_start_keeps_ranges(ranges);
    assert forall|i: int, j: int|
        0 <= i < ranges.len() && 0 <= j < ranges.len() && i != j implies ranges[i]
        != ranges[j] by {
        assert(1 <= ranges[i].start <= ranges[i].end);
        assert(1 <= ranges[j].start <= ranges[j].end);
    }
    ranges.lemma_multiset_has_no_duplicates();
    sorted.lemma_multiset_has_no_duplicates_conv();
    assert forall|i: int| 0 <= i < sorted.len() implies 1 <= (#[trigger] sorted[i]).start
        <= sorted[i].end <= total by {
        assert(sorted.contains(sorted[i]));
        let k = choose|k: int| 0 <= k < ranges.len() && ranges[k] == sorted[i];
        assert(1 <= ranges[k].start);
    }
    assert forall|i: int, j: int| 0 <= i < j < sorted.len() implies (#[trigger] sorted[i]).end < (
    #[trigger] sorted[j]).start by {
        assert(sorted.contains(sorted[i]) && sorted.contains(sorted[j]));
        let k = choose|k: int| 0 <= k < ranges.len() && ranges[k] == sorted[i];
        let l = choose|l: int| 0 <= l < ranges.len() && ranges[l] == sorted[j];
        assert(sorted[i] != sorted[j]);
        assert(k != l);
        assert(ranges[k].end < ranges[l].start || ranges[l].end < ranges[k].start);
    }
    if crate::merge_laws::ascending(ranges) {
        assert forall|i: int, j: int| 0 <= i < j < ranges.len() implies (
        #[trigger] ranges[i]).start <= (#[trigger] ranges[j]).start by {
            assert(ranges[i].end < ranges[j].start);
            assert(ranges[i].start <= ranges[i].end);
        }
        crate::expand_laws::lemma_by_start_of_sorted(ranges);
    }
}

/// If all edits lie inside the ranges, the file gets the fixed content: no line of it is
/// dropped, repeated or left as it was, also where edits add or remove lines. Here `list`
/// says what the edits made of each range, by ascending start, line ends and all.
pub proof fn edits_inside_the_ranges_are_taken_over_whole(
    contents: Seq<char>,
    ranges: Vec<LineRange>,
    applied: Seq<bool>,
    fixed: Seq<char>,
    list: Seq<Replacement>,
)
    requires
        ranges@.len() > 0,
        crate::merge_laws::in_bounds(ranges@, crate::text::lines(contents).len()),
        crate::merge_laws::disjoint(ranges@),
        crate::inside::replaces(list, crate::expand::by_start(ranges@)),
        crate::text::raw_lines(fixed) == crate::merge_laws::substituted(
            crate::text::raw_lines(contents),
            0,
            list,
        ),
        crate::fix::any_applied(applied),
        fixed != contents,
    ensures
        crate::fix::fix_result(contents, FixScope::Lines(ranges), applied, fixed)
            == FixResult::Write(fixed),
{
    crate::text::lemma_raw_lines(contents);
    sorted_ranges_follow(ranges@, crate::text::lines(contents).len());
}

/// The same, where line ends are left out of account: lines end with a plain newline, and
/// the last line has one before and after the edits or neither.
pub proof fn edits_of_lines_inside_the_ranges_are_taken_over_whole(
    contents: Seq<char>,
    ranges: Vec<LineRange>,
    applied: Seq<bool>,
    fixed: Seq<char>,
    list: Seq<Replacement>,
)
    requires
        ranges@.len() > 0,
        crate::merge_laws::in_bounds(ranges@, crate::text::lines(contents).len()),
        crate::merge_laws::disjoint(ranges@),
        crate::inside::replaces(list, crate::expand::by_start(ranges@)),
        crate::text::lines(fixed) == crate::merge_laws::substituted(
            crate::text::lines(contents),
            0,
            list,
        ),
        crate::merge_laws::no_crlf(fixed),
        crate::merge::ends_with_newline(fixed) == crate::merge::ends_with_newline(contents),
        crate::fix::any_applied(applied),
        fixed != contents,
    ensures
        crate::fix::fix_result(contents, FixScope::Lines(ranges), applied, fixed)
            == FixResult::Write(fixed),
{
    sorted_ranges_follow(ranges@, crate::text::lines(contents).len());
    crate::merge_laws::lines_give_back_the_text(fixed);
}

/// `written` is the content with some of the ranges replaced as `list` says, and every other
/// line as it was. Unless a range reaches to the last line, the newline at the end is as it
/// was too.
pub open spec fn replaced_by(
    contents: Seq<char>,
    ranges: Seq<LineRange>,
    written: Seq<char>,
    list: Seq<Replacement>,
) -> bool {
    let lines = crate::text::lines(contents);
    let after = crate::merge_laws::substituted(lines, 0, list);
    &&& crate::inside::follow(list.map_values(|r: Replacement| r.0), lines.len())
    &&& forall|i: int| 0 <= i < list.len() ==> ranges.contains((#[trigger] list[i]).0)
    &&& crate::text::lines(written) == after || written == crate::merge::text_of_lines(
        after,
        crate::merge::ends_with_newline(contents),
    )
    &&& (forall|i: int| 0 <= i < ranges.len() ==> (#[trigger] ranges[i]).end != lines.len())
        ==> crate::merge::ends_with_newline(written) == crate::merge::ends_with_newline(contents)
}

/// Only lines of the ranges are replaced, and every other line is as it was.
pub open spec fn keeps_other_lines(
    contents: Seq<char>,
    ranges: Seq<LineRange>,
    written: Seq<char>,
) -> bool {
    exists|list: Seq<Replacement>| #[trigger] replaced_by(contents, ranges, written, list)
}

/// Replacing lines with line ends, and leaving them out, comes to the same in either order.
proof fn lemma_substituted_without_ends(
    raw: Seq<Seq<char>>,
    from: int,
    list: Seq<Replacement>,
    bare: Seq<Replacement>,
)
    requires
        0 <= from <= raw.len(),
        bare.len() == list.len(),
        forall|i: int|
            0 <= i < list.len() ==> (#[trigger] bare[i]).0 == list[i].0 && bare[i].1
                == list[i].1.map_values(|r: Seq<char>| crate::text::without_end(r)),
        forall|i: int|
            0 <= i < list.len() ==> from < (#[trigger] list[i]).0.start <= list[i].0.end
                <= raw.len(),
        forall|i: int, j: int|
            0 <= i < j < list.len() ==> (#[trigger] list[i]).0.end < (#[trigger] list[j]).0.start,
    ensures
        crate::merge_laws::substituted(raw, from, list).map_values(
            |r: Seq<char>| crate::text::without_end(r),
        ) == crate::merge_laws::substituted(
            raw.map_values(|r: Seq<char>| crate::text::without_end(r)),
            from,
            bare,
        ),
    decreases list.len(),
{
    let strip = |r: Seq<char>| crate::text::without_end(r);
    let lines = raw.map_values(strip);
    if list.len() == 0 {
        assert(raw.skip(from).map_values(strip) == lines.skip(from));
    } else {
        let rest = list.skip(1);
        let bare_rest = bare.skip(1);
        let end = list[0].0.end as int;
        assert(bare[0].0 == list[0].0);
        assert forall|i: int| 0 <= i < rest.len() implies (#[trigger] bare_rest[i]).0
            == rest[i].0 && bare_rest[i].1 == rest[i].1.map_values(strip) by {
            assert(bare_rest[i] == bare[i + 1] && rest[i] == list[i + 1]);
        }
        assert forall|i: int| 0 <= i < rest.len() implies end < (#[trigger] rest[i]).0.start
            <= rest[i].0.end <= raw.len() by {
            assert(rest[i] == list[i + 1]);
            assert(list[0].0.end < list[i + 1].0.start);
        }
        assert forall|i: int, j: int| 0 <= i < j < rest.len() implies (#[trigger] rest[i]).0.end
            < (#[trigger] rest[j]).0.start by {
            assert(rest[i] == list[i + 1] && rest[j] == list[j + 1]);
        }
        lemma_substituted_without_ends(raw, end, rest, bare_rest);
        let head = raw.subrange(from, list[0].0.start - 1);
        let tail = crate::merge_laws::substituted(raw, end, rest);
        assert(head.map_values(strip) == lines.subrange(from, list[0].0.start - 1));
        assert((head + list[0].1 + tail).map_values(strip) == head.map_values(strip)
            + list[0].1.map_values(strip) + tail.map_values(strip));
    }
}

/// The last line stays if no range reaches to it.
proof fn lemma_last_line_stays(lines: Seq<Seq<char>>, from: int, list: Seq<Replacement>)
    requires
        0 <= from < lines.len(),
        forall|i: int|
            0 <= i < list.len() ==> from < (#[trigger] list[i]).0.start <= list[i].0.end
                < lines.len(),
        forall|i: int, j: int|
            0 <= i < j < list.len() ==> (#[trigger] list[i]).0.end < (#[trigger] list[j]).0.start,
    ensures
        crate::merge_laws::substituted(lines, from, list).len() > 0,
        crate::merge_laws::substituted(lines, from, list).last() == lines.last(),
    decreases list.len(),
{
    if list.len() == 0 {
        assert(lines.skip(from).last() == lines.last());
    } else {
        let rest = list.skip(1);
        let end = list[0].0.end as int;
        assert forall|i: int| 0 <= i < rest.len() implies end < (#[trigger] rest[i]).0.start
            <= rest[i].0.end < lines.len() by {
            assert(rest[i] == list[i + 1]);
            assert(list[0].0.end < list[i + 1].0.start);
        }
        assert forall|i: int, j: int| 0 <= i < j < rest.len() implies (#[trigger] rest[i]).0.end
            < (#[trigger] rest[j]).0.start by {
            assert(rest[i] == list[i + 1] && rest[j] == list[j + 1]);
        }
        lemma_last_line_stays(lines, end, rest);
        let tail = crate::merge_laws::substituted(lines, end, rest);
        let all = crate::merge_laws::substituted(lines, from, list);
        assert(all == lines.subrange(from, list[0].0.start - 1) + list[0].1 + tail);
        assert(all.last() == tail.last());
    }
}

proof fn lemma_substituted_has_no_newlines(
    lines: Seq<Seq<char>>,
    from: int,
    list: Seq<Replacement>,
)
    requires
        0 <= from <= lines.len(),
        crate::merge_laws::no_newlines(lines),
        forall|i: int|
            0 <= i < list.len() ==> from < (#[trigger] list[i]).0.start <= list[i].0.end
                <= lines.len() && crate::merge_laws::no_newlines(list[i].1),
        forall|i: int, j: int|
            0 <= i < j < list.len() ==> (#[trigger] list[i]).0.end < (#[trigger] list[j]).0.start,
    ensures
        crate::merge_laws::no_newlines(crate::merge_laws::substituted(lines, from, list)),
    decreases list.len(),
{
    let all = crate::merge_laws::substituted(lines, from, list);
    if list.len() == 0 {
        assert forall|i: int| 0 <= i < all.len() implies !(#[trigger] all[i]).contains('\n') by {
            assert(all[i] == lines[from + i]);
        }
    } else {
        let rest = list.skip(1);
        let end = list[0].0.end as int;
        assert forall|i: int| 0 <= i < rest.len() implies end < (#[trigger] rest[i]).0.start
            <= rest[i].0.end <= lines.len() && crate::merge_laws::no_newlines(rest[i].1) by {
            assert(rest[i] == list[i + 1]);
            assert(list[0].0.end < list[i + 1].0.start);
        }
        assert forall|i: int, j: int| 0 <= i < j < rest.len() implies (#[trigger] rest[i]).0.end
            < (#[trigger] rest[j]).0.start by {
            assert(rest[i] == list[i + 1] && rest[j] == list[j + 1]);
        }
        lemma_substituted_has_no_newlines(lines, end, rest);
        let head = lines.subrange(from, list[0].0.start - 1);
        let tail = crate::merge_laws::substituted(lines, end, rest);
        assert(all == head + list[0].1 + tail);
        assert forall|i: int| 0 <= i < all.len() implies !(#[trigger] all[i]).contains('\n') by {
            if i < head.len() {
                assert(all[i] == lines[from + i]);
            } else if i < head.len() + list[0].1.len() {
                assert(all[i] == list[0].1[i - head.len()]);
            } else {
                assert(all[i] == tail[i - head.len() - list[0].1.len()]);
            }
        }
    }
}

/// What `follow` says of the ranges of a list, in terms of the list.
proof fn lemma_follow(list: Seq<Replacement>, total: nat)
    requires
        crate::inside::follow(list.map_values(|r: Replacement| r.0), total),
    ensures
        forall|i: int|
            0 <= i < list.len() ==> 0 < (#[trigger] list[i]).0.start <= list[i].0.end <= total,
        forall|i: int, j: int|
            0 <= i < j < list.len() ==> (#[trigger] list[i]).0.end < (#[trigger] list[j]).0.start,
{
    let ranges = list.map_values(|r: Replacement| r.0);
    assert forall|i: int| 0 <= i < list.len() implies 0 < (#[trigger] list[i]).0.start
        <= list[i].0.end <= total by {
        assert(ranges[i] == list[i].0);
    }
    assert forall|i: int, j: int| 0 <= i < j < list.len() implies (#[trigger] list[i]).0.end < (
    #[trigger] list[j]).0.start by {
        assert(ranges[i] == list[i].0 && ranges[j] == list[j].0);
    }
}

/// A text made of replaced lines ends with a newline as the content does, if the last line
/// stays.
proof fn lemma_newline_stays(contents: Seq<char>, list: Seq<Replacement>)
    requires
        crate::inside::follow(
            list.map_values(|r: Replacement| r.0),
            crate::text::lines(contents).len(),
        ),
        list.len() > 0,
        forall|i: int|
            0 <= i < list.len() ==> (#[trigger] list[i]).0.end < crate::text::lines(contents).len()
                && crate::merge_laws::no_newlines(list[i].1),
    ensures
        crate::merge::ends_with_newline(
            crate::merge::text_of_lines(
                crate::merge_laws::substituted(crate::text::lines(contents), 0, list),
                crate::merge::ends_with_newline(contents),
            ),
        ) == crate::merge::ends_with_newline(contents),
{
    let lines = crate::text::lines(contents);
    let newline = crate::merge::ends_with_newline(contents);
    let after = crate::merge_laws::substituted(lines, 0, list);
    lemma_follow(list, lines.len());
    assert(list[0].0.end < lines.len());
    assert forall|i: int| 0 <= i < list.len() implies 0 < (#[trigger] list[i]).0.start
        <= list[i].0.end < lines.len() by {}
    lemma_last_line_stays(lines, 0, list);
    let text = crate::merge::text_of_lines(after, newline);
    if newline {
        assert(text.last() == '\n');
    } else {
        crate::text::lemma_lines_have_no_newline(contents);
        lemma_substituted_has_no_newlines(lines, 0, list);
        crate::text::lemma_last_line(contents);
        assert(text == crate::text::join(after, seq!['\n']));
        crate::merge_laws::lemma_join_last(after);
    }
}

/// Taking lines by their numbers does not depend on the order of the ranges.
proof fn lemma_cut_sorted(contents: Seq<char>, cut: Seq<LineRange>, lines: Seq<Seq<char>>)
    requires
        cut.len() > 0,
        crate::merge_laws::in_bounds(cut, crate::text::lines(contents).len()),
        crate::merge_laws::disjoint(cut),
    ensures
        crate::merge::merged(contents, cut, crate::fix::chunks(lines, cut))
            == crate::merge::merged(
            contents,
            crate::expand::by_start(cut),
            crate::fix::chunks(lines, crate::expand::by_start(cut)),
        ),
{
    let total = crate::text::lines(contents).len();
    let sorted = crate::expand::by_start(cut);
    let texts = crate::fix::chunks(lines, cut);
    let sorted_texts = crate::fix::chunks(lines, sorted);
    let list = crate::merge::replacements(cut, texts);
    let sorted_list = crate::merge::replacements(sorted, sorted_texts);
    sorted_ranges_follow(cut, total);
    crate::expand_laws::lemma_by_start(cut);
    crate::order_laws::lemma_by_start_keeps_ranges(cut);
    crate::merge_laws::accepted_iff_in_bounds(total, cut, texts.len());
    crate::merge_laws::accepted_iff_in_bounds(total, sorted, sorted_texts.len());
    assert forall|i: int, j: int| 0 <= i < j < list.len() implies (#[trigger] list[i]).0.start != (
    #[trigger] list[j]).0.start by {
        assert(list[i].0 == cut[i] && list[j].0 == cut[j]);
    }
    assert forall|i: int, j: int| 0 <= i < j < sorted_list.len() implies (
    #[trigger] sorted_list[i]).0.start != (#[trigger] sorted_list[j]).0.start by {
        assert(sorted_list[i].0 == sorted[i] && sorted_list[j].0 == sorted[j]);
        assert(sorted[i].end < sorted[j].start);
        assert(sorted[i].start <= sorted[i].end);
    }
    crate::merge_laws::lemma_bottom_up(list);
    crate::merge_laws::lemma_bottom_up(sorted_list);
    let a = crate::merge::bottom_up(list);
    let b = crate::merge::bottom_up(sorted_list);
    assert forall|x: Replacement| a.contains(x) <==> b.contains(x) by {
        if list.contains(x) {
            let i = choose|i: int| 0 <= i < list.len() && list[i] == x;
            assert(cut.contains(cut[i]));
            assert(sorted.contains(cut[i]));
            let k = choose|k: int| 0 <= k < sorted.len() && sorted[k] == cut[i];
            assert(sorted_list[k] == x);
            assert(sorted_list.contains(x));
        }
        if sorted_list.contains(x) {
            let k = choose|k: int| 0 <= k < sorted_list.len() && sorted_list[k] == x;
            assert(sorted.contains(sorted[k]));
            assert(cut.contains(sorted[k]));
            let i = choose|i: int| 0 <= i < cut.len() && cut[i] == sorted[k];
            assert(list[i] == x);
            assert(list.contains(x));
        }
    }
    crate::merge_laws::lemma_descending_unique(a, b);
}

/// If also line ends outside the ranges stay, the fixed content keeps the other lines.
proof fn lemma_raw_change_keeps_other_lines(
    contents: Seq<char>,
    ranges: Seq<LineRange>,
    fixed: Seq<char>,
)
    requires
        ranges.len() > 0,
        crate::inside::changed_inside(
            crate::text::raw_lines(contents),
            ranges,
            crate::text::raw_lines(fixed),
        ),
    ensures
        keeps_other_lines(contents, ranges, fixed),
{
    let strip = |r: Seq<char>| crate::text::without_end(r);
    let raw = crate::text::raw_lines(contents);
    let new_raw = crate::text::raw_lines(fixed);
    let lines = crate::text::lines(contents);
    crate::text::lemma_raw_lines(contents);
    crate::text::lemma_raw_lines(fixed);
    let sorted = crate::expand::by_start(ranges);
    crate::expand_laws::lemma_by_start(ranges);
    crate::order_laws::lemma_by_start_keeps_ranges(ranges);
    let list = choose|list: Seq<Replacement>| #[trigger]
        crate::inside::replaces(list, sorted) && new_raw == crate::merge_laws::substituted(
            raw,
            0,
            list,
        );
    let bare: Seq<Replacement> = Seq::new(
        list.len(),
        |i: int| (list[i].0, list[i].1.map_values(strip)),
    );
    assert(list.map_values(|r: Replacement| r.0) == sorted);
    assert(bare.map_values(|r: Replacement| r.0) == sorted);
    lemma_follow(list, raw.len());
    lemma_substituted_without_ends(raw, 0, list, bare);
    assert(crate::text::lines(fixed) == crate::merge_laws::substituted(lines, 0, bare));
    assert forall|i: int| 0 <= i < bare.len() implies ranges.contains((#[trigger] bare[i]).0) by {
        assert(sorted.contains(sorted[i]));
    }
    if forall|i: int| 0 <= i < ranges.len() ==> (#[trigger] ranges[i]).end != lines.len() {
        assert forall|i: int| 0 <= i < list.len() implies 0 < (#[trigger] list[i]).0.start
            <= list[i].0.end < raw.len() by {
            assert(sorted.contains(sorted[i]));
            let k = choose|k: int| 0 <= k < ranges.len() && ranges[k] == sorted[i];
            assert(ranges[k].end != lines.len());
            assert(list[i].0 == sorted[i]);
        }
        assert(list[0].0.end < raw.len());
        lemma_last_line_stays(raw, 0, list);
        assert(contents.len() > 0);
        assert(fixed.len() > 0);
        assert(new_raw.last() == raw.last());
    }
    assert(replaced_by(contents, ranges, fixed, bare));
}

/// If no line outside the ranges changed, the fixed lines keep the other lines.
proof fn lemma_change_keeps_other_lines(
    contents: Seq<char>,
    ranges: Seq<LineRange>,
    fixed: Seq<char>,
)
    requires
        ranges.len() > 0,
        crate::inside::changed_inside(
            crate::text::lines(contents),
            ranges,
            crate::text::lines(fixed),
        ),
    ensures
        keeps_other_lines(
            contents,
            ranges,
            crate::merge::text_of_lines(
                crate::text::lines(fixed),
                crate::merge::ends_with_newline(contents),
            ),
        ),
{
    let lines = crate::text::lines(contents);
    let new_lines = crate::text::lines(fixed);
    let newline = crate::merge::ends_with_newline(contents);
    let text = crate::merge::text_of_lines(new_lines, newline);
    let sorted = crate::expand::by_start(ranges);
    crate::expand_laws::lemma_by_start(ranges);
    crate::order_laws::lemma_by_start_keeps_ranges(ranges);
    let list = choose|list: Seq<Replacement>| #[trigger]
        crate::inside::replaces(list, sorted) && new_lines == crate::merge_laws::substituted(
            lines,
            0,
            list,
        );
    assert(list.map_values(|r: Replacement| r.0) == sorted);
    lemma_follow(list, lines.len());
    assert forall|i: int| 0 <= i < list.len() implies ranges.contains((#[trigger] list[i]).0) by {
        assert(sorted.contains(sorted[i]));
    }
    if forall|i: int| 0 <= i < ranges.len() ==> (#[trigger] ranges[i]).end != lines.len() {
        assert forall|i: int| 0 <= i < list.len() implies 0 < (#[trigger] list[i]).0.start
            <= list[i].0.end < lines.len() by {
            assert(sorted.contains(sorted[i]));
            let k = choose|k: int| 0 <= k < ranges.len() && ranges[k] == sorted[i];
            assert(ranges[k].end != lines.len());
            assert(list[i].0 == sorted[i]);
        }
        assert(list[0].0.end < lines.len());
        lemma_last_line_stays(lines, 0, list);
        if newline {
            assert(text.last() == '\n');
        } else {
            crate::text::lemma_last_line(contents);
            crate::text::lemma_lines_have_no_newline(fixed);
            assert(text == crate::text::join(new_lines, seq!['\n']));
            crate::merge_laws::lemma_join_last(new_lines);
        }
    }
    assert(replaced_by(contents, ranges, text, list));
}

/// Lines that are taken by their numbers keep the other lines.
proof fn lemma_cut_keeps_other_lines(
    contents: Seq<char>,
    ranges: Seq<LineRange>,
    fixed: Seq<char>,
    text: Seq<char>,
)
    requires
        crate::merge_laws::disjoint(ranges),
        ({
            let new_lines = crate::text::lines(fixed);
            let cut = crate::fix::cut_ranges(ranges, new_lines.len());
            &&& cut.len() > 0
            &&& crate::merge::merged(contents, cut, crate::fix::chunks(new_lines, cut)) == Ok::<
                Seq<char>,
                MergeError,
            >(text)
        }),
    ensures
        keeps_other_lines(contents, ranges, text),
{
    let lines = crate::text::lines(contents);
    let new_lines = crate::text::lines(fixed);
    let cut = crate::fix::cut_ranges(ranges, new_lines.len());
    let texts = crate::fix::chunks(new_lines, cut);
    cutting_keeps_the_order(ranges, new_lines.len());
    crate::merge_laws::accepted_iff_in_bounds(lines.len(), cut, texts.len());
    lemma_cut_sorted(contents, cut, new_lines);
    sorted_ranges_follow(cut, lines.len());
    let sorted = crate::expand::by_start(cut);
    crate::order_laws::lemma_by_start_keeps_ranges(cut);
    crate::expand_laws::lemma_by_start(cut);
    let sorted_texts = crate::fix::chunks(new_lines, sorted);
    crate::merge_laws::ascending_ranges_are_replaced_in_place(contents, sorted, sorted_texts);
    let list = crate::merge::replacements(sorted, sorted_texts);
    assert(list.map_values(|r: Replacement| r.0) == sorted);
    assert forall|i: int| 0 <= i < list.len() implies ranges.contains((#[trigger] list[i]).0) by {
        assert(sorted.contains(sorted[i]));
        let k = choose|k: int| 0 <= k < cut.len() && cut[k] == sorted[i];
        assert(ranges.contains(cut[k]));
    }
    lemma_follow(list, lines.len());
    if forall|i: int| 0 <= i < ranges.len() ==> (#[trigger] ranges[i]).end != lines.len() {
        assert forall|i: int| 0 <= i < list.len() implies (#[trigger] list[i]).0.end < lines.len()
            && crate::merge_laws::no_newlines(list[i].1) by {
            assert(ranges.contains(list[i].0));
            let k = choose|k: int| 0 <= k < ranges.len() && ranges[k] == list[i].0;
            assert(ranges[k].end != lines.len());
            crate::text::lemma_lines_have_no_newline(sorted_texts[i]);
        }
        lemma_newline_stays(contents, list);
    }
    assert(replaced_by(contents, ranges, text, list));
}

/// Where no line belongs to two ranges, a file is written only with lines of the ranges
/// replaced: every other line stays, and so does the newline at the end unless a range
/// reaches to it.
pub proof fn only_lines_of_the_ranges_are_replaced(
    contents: Seq<char>,
    ranges: Seq<LineRange>,
    fixed: Seq<char>,
)
    requires
        crate::merge_laws::disjoint(ranges),
    ensures
        crate::fix::lines_result(contents, ranges, fixed) matches FixResult::Write(text)
            ==> keeps_other_lines(contents, ranges, text),
{
    let lines = crate::text::lines(contents);
    let new_lines = crate::text::lines(fixed);
    let result = crate::fix::lines_result(contents, ranges, fixed);
    if ranges.len() > 0 && result is Write {
        if crate::inside::changed_inside(
            crate::text::raw_lines(contents),
            ranges,
            crate::text::raw_lines(fixed),
        ) {
            lemma_raw_change_keeps_other_lines(contents, ranges, fixed);
        } else if crate::inside::changed_inside(lines, ranges, new_lines) {
            lemma_change_keeps_other_lines(contents, ranges, fixed);
        } else {
            lemma_cut_keeps_other_lines(contents, ranges, fixed, result->Write_0);
        }
    }
}

} // verus!
