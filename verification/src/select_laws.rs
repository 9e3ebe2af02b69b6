//! Which issues are selected to be fixed, in terms of line numbers alone.
use crate::fix::{FixFlags, FixScope, FoundIssue, Safety};
use crate::merge::LineRange;
use vstd::prelude::*;

verus! {

/// Some line from `first` to `last` lies in one of the ranges.
pub open spec fn share_a_line(ranges: Seq<LineRange>, first: int, last: int) -> bool {
    exists|i: int, line: int|
        0 <= i < ranges.len() && first <= line <= last && #[trigger] crate::fix_laws::has_line(
            ranges[i],
            line,
        )
}

/// No range ends before it starts.
pub open spec fn all_upright(ranges: Seq<LineRange>) -> bool {
    forall|i: int| 0 <= i < ranges.len() ==> (#[trigger] ranges[i]).start <= ranges[i].end
}

pub proof fn lemma_touched(ranges: Seq<LineRange>, first: u32, last: u32)
    requires
        all_upright(ranges),
        first <= last,
    ensures
        crate::fix::touched(ranges, first, last) <==> share_a_line(ranges, first as int, last as int),
{
    if crate::fix::touched(ranges, first, last) {
        let i = choose|i: int|
            0 <= i < ranges.len() && crate::fix::touches(#[trigger] ranges[i], first, last);
        let line = if ranges[i].start <= first {
            first as int
        } else {
            ranges[i].start as int
        };
        assert(crate::fix_laws::has_line(ranges[i], line));
    }
    if share_a_line(ranges, first as int, last as int) {
        let (i, line) = choose|i: int, line: int|
            0 <= i < ranges.len() && first <= line <= last && #[trigger] crate::fix_laws::has_line(
                ranges[i],
                line,
            );
        assert(crate::fix::touches(ranges[i], first, last));
    }
}

/// One of the ranges neither starts behind the last line nor ends before the first.
pub open spec fn meets_a_range(ranges: Seq<LineRange>, first: int, last: int) -> bool {
    exists|i: int|
        0 <= i < ranges.len() && (#[trigger] ranges[i]).start <= last && first <= ranges[i].end
}

pub proof fn lemma_meets(ranges: Seq<LineRange>, first: u32, last: u32)
    ensures
        crate::fix::touched(ranges, first, last) <==> meets_a_range(
            ranges,
            first as int,
            last as int,
        ),
{
    if crate::fix::touched(ranges, first, last) {
        let i = choose|i: int|
            0 <= i < ranges.len() && crate::fix::touches(#[trigger] ranges[i], first, last);
        assert(ranges[i].start <= last && first <= ranges[i].end);
    }
    if meets_a_range(ranges, first as int, last as int) {
        let i = choose|i: int|
            0 <= i < ranges.len() && (#[trigger] ranges[i]).start <= last && first
                <= ranges[i].end;
        assert(crate::fix::touches(ranges[i], first, last));
    }
}

/// In a scope of some lines, an issue with edits to the file and a primary span is fixed
/// exactly if one of the ranges neither starts behind its last line nor ends before its
/// first, whatever the ranges are.
pub proof fn issues_are_fixed_where_a_range_meets_them(
    ranges: Vec<LineRange>,
    issue: FoundIssue,
    first: u32,
    last: u32,
)
    requires
        issue.has_edits,
        issue.edits_this_file,
        issue.lines == Some((first, last)),
    ensures
        crate::fix::is_fixed(FixScope::Lines(ranges), issue) <==> meets_a_range(
            ranges@,
            first as int,
            last as int,
        ),
{
    lemma_meets(ranges@, first, last);
}

/// In a scope of some lines, an issue is fixed exactly if it comes with edits to the file
/// and has a primary span some line of which lies in one of the ranges.
pub proof fn issues_are_fixed_by_their_lines(ranges: Vec<LineRange>, issue: FoundIssue)
    requires
        all_upright(ranges@),
        issue.lines matches Some((first, last)) ==> first <= last,
    ensures
        crate::fix::is_fixed(FixScope::Lines(ranges), issue) <==> issue.has_edits
            && issue.edits_this_file && issue.lines is Some && share_a_line(
            ranges@,
            issue.lines->Some_0.0 as int,
            issue.lines->Some_0.1 as int,
        ),
{
    if issue.lines is Some {
        lemma_touched(ranges@, issue.lines->Some_0.0, issue.lines->Some_0.1);
    }
}

/// Of a whole file, each issue with edits to it and a primary span is fixed.
pub proof fn whole_files_have_all_issues_fixed(issue: FoundIssue)
    ensures
        crate::fix::is_fixed(FixScope::WholeFile, issue) <==> issue.has_edits
            && issue.edits_this_file && issue.lines is Some,
        crate::fix::is_fixed_within(FixScope::WholeFile, issue) <==> issue.has_edits
            && issue.edits_this_file && issue.lines is Some,
{
}

/// The issues that are fixed within some lines are those of the fixed ones whose edits each
/// lie between the first and last line of one range.
pub proof fn edits_within_lie_in_one_range(ranges: Vec<LineRange>, issue: FoundIssue)
    ensures
        crate::fix::is_fixed_within(FixScope::Lines(ranges), issue) <==> crate::fix::is_fixed(
            FixScope::Lines(ranges),
            issue,
        ) && forall|k: int|
            0 <= k < issue.edit_lines@.len() ==> exists|i: int|
                0 <= i < ranges@.len() && (#[trigger] ranges@[i]).start <= (
                #[trigger] issue.edit_lines@[k]).0 && issue.edit_lines@[k].1 <= ranges@[i].end,
{
    let scope = FixScope::Lines(ranges);
    if crate::fix::is_fixed_within(scope, issue) {
        assert forall|k: int| 0 <= k < issue.edit_lines@.len() implies exists|i: int|
            0 <= i < ranges@.len() && (#[trigger] ranges@[i]).start <= (
            #[trigger] issue.edit_lines@[k]).0 && issue.edit_lines@[k].1 <= ranges@[i].end by {
            assert(crate::fix::is_within(ranges@, issue.edit_lines@[k]));
        }
    }
}

/// A list of positions names those that were chosen and no others, each once and in order.
pub proof fn lists_name_what_was_chosen(list: Seq<usize>, n: nat, chosen: spec_fn(int) -> bool)
    requires
        n <= usize::MAX,
        crate::fix::lists_positions(list, n, chosen),
    ensures
        forall|i: usize| #[trigger] list.contains(i) <==> i < n && chosen(i as int),
        forall|k: int, l: int| 0 <= k < l < list.len() ==> list[k] < list[l],
{
    assert forall|i: usize| #[trigger] list.contains(i) implies i < n && chosen(i as int) by {
        let k = choose|k: int| 0 <= k < list.len() && list[k] == i;
        assert(list[k] == i);
    }
    assert forall|i: usize| i < n && chosen(i as int) implies #[trigger] list.contains(i) by {
        assert(i as int as usize == i);
    }
}

/// The list of a selection for some lines has a position exactly if the issue there comes
/// with edits to the file and has a line of its primary span in one of the ranges.
pub proof fn selection_goes_by_lines(
    list: Seq<usize>,
    ranges: Vec<LineRange>,
    issues: Seq<FoundIssue>,
    i: usize,
)
    requires
        issues.len() <= usize::MAX,
        i < issues.len(),
        crate::fix::lists_positions(
            list,
            issues.len(),
            |i: int| crate::fix::is_fixed(FixScope::Lines(ranges), issues[i]),
        ),
        all_upright(ranges@),
        issues[i as int].lines matches Some((first, last)) ==> first <= last,
    ensures
        list.contains(i) <==> issues[i as int].has_edits && issues[i as int].edits_this_file
            && issues[i as int].lines is Some && share_a_line(
            ranges@,
            issues[i as int].lines->Some_0.0 as int,
            issues[i as int].lines->Some_0.1 as int,
        ),
{
    let chosen = |i: int| crate::fix::is_fixed(FixScope::Lines(ranges), issues[i]);
    lists_name_what_was_chosen(list, issues.len(), chosen);
    assert(chosen(i as int) == crate::fix::is_fixed(FixScope::Lines(ranges), issues[i as int]));
    issues_are_fixed_by_their_lines(ranges, issues[i as int]);
}

/// More ranges never leave out an issue, and the order of the ranges is of no account.
pub proof fn more_ranges_fix_more(fewer: Vec<LineRange>, more: Vec<LineRange>, issue: FoundIssue)
    requires
        forall|i: int|
            0 <= i < fewer@.len() ==> more@.contains(#[trigger] fewer@[i]),
        crate::fix::is_fixed(FixScope::Lines(fewer), issue),
    ensures
        crate::fix::is_fixed(FixScope::Lines(more), issue),
{
    let (first, last) = issue.lines->Some_0;
    let i = choose|i: int|
        0 <= i < fewer@.len() && crate::fix::touches(#[trigger] fewer@[i], first, last);
    assert(more@.contains(fewer@[i]));
    let j = choose|j: int| 0 <= j < more@.len() && more@[j] == fewer@[i];
    assert(crate::fix::touches(more@[j], first, last));
}

/// Unsafe edits are admitted exactly if asked for, and then potentially unsafe ones too;
/// without either flag only safe ones are.
pub proof fn edits_are_as_safe_as_asked(flags: FixFlags)
    ensures
        crate::fix::safety_of(flags) == Safety::Unsafe <==> flags.allow_unsafe,
        crate::fix::safety_of(flags) == Safety::Safe <==> !flags.allow_unsafe
            && !flags.potentially_unsafe,
{
}

} // verus!
