//! Fixing only some lines of a file: which issues to fix, and what becomes of the file.
use crate::inside::changes_inside;
use crate::merge::{
    ends_newline, merge_formatted_lines, text_from_lines, LineRange, MergeError, Replacement,
};
use crate::text::{lines_of, raw_lines_of};
use vstd::prelude::*;

verus! {

/// How far an edit may go.
#[derive(Debug, Clone, Copy, PartialEq, Eq, Structural)]
pub enum Safety {
    Safe,
    PotentiallyUnsafe,
    Unsafe,
}

/// What the user asked for with respect to fixing.
#[derive(Debug, Clone, Copy, PartialEq, Eq, Structural)]
pub struct FixFlags {
    /// Issues are to be fixed.
    pub fix: bool,
    /// Fixes that are unsafe are wanted too.
    pub allow_unsafe: bool,
    /// Fixes that may be unsafe are wanted too.
    pub potentially_unsafe: bool,
}

/// The least safe kind of edit that the flags admit.
pub open spec fn safety_of(flags: FixFlags) -> Safety {
    if flags.allow_unsafe {
        Safety::Unsafe
    } else if flags.potentially_unsafe {
        Safety::PotentiallyUnsafe
    } else {
        Safety::Safe
    }
}

impl FixFlags {
    /// The least safe kind of edit that the flags admit.
    pub fn safety(&self) -> (r: Safety)
        ensures
            r == safety_of(*self),
    {
        if self.allow_unsafe {
            Safety::Unsafe
        } else if self.potentially_unsafe {
            Safety::PotentiallyUnsafe
        } else {
            Safety::Safe
        }
    }
}

/// How a commit changed a file.
#[derive(Debug, Clone, Copy, PartialEq, Eq, Structural)]
pub enum ChangeType {
    /// The file is new.
    Added,
    /// The file was there before.
    Modified,
}

/// The part of a file whose issues are to be fixed.
#[derive(Debug, Clone)]
pub enum FixScope {
    /// All of it.
    WholeFile,
    /// Some lines of it.
    Lines(Vec<LineRange>),
}

/// A range has a line between two lines, both included.
pub open spec fn touches(range: LineRange, start_line: u32, end_line: u32) -> bool {
    range.start <= end_line && range.end >= start_line
}

/// Some range has a line between two lines.
pub open spec fn touched(ranges: Seq<LineRange>, start_line: u32, end_line: u32) -> bool {
    exists|i: int| 0 <= i < ranges.len() && touches(#[trigger] ranges[i], start_line, end_line)
}

/// Whether some range has a line between two lines.
pub fn touches_any(ranges: &[LineRange], start_line: u32, end_line: u32) -> (r: bool)
    ensures
        r == touched(ranges@, start_line, end_line),
{
    let mut i: usize = 0;
    while i < ranges.len()
        invariant
            i <= ranges@.len(),
            forall|j: int| 0 <= j < i ==> !touches(#[trigger] ranges@[j], start_line, end_line),
        decreases ranges@.len() - i,
    {
        let first: u64 = ranges[i].start as u64;
        let last: u64 = ranges[i].end as u64;
        if first <= end_line as u64 && last >= start_line as u64 {
            assert(touches(ranges@[i as int], start_line, end_line));
            return true;
        }
        i += 1;
    }
    false
}

/// What is known of an issue that a rule found in a file.
#[derive(Debug)]
pub struct FoundIssue {
    /// It comes with edits, to this file or another.
    pub has_edits: bool,
    /// The first and last line of its primary span, if it has one.
    pub lines: Option<(u32, u32)>,
    /// It comes with edits to this file.
    pub edits_this_file: bool,
    /// The first and last line that each of its edits to this file touches.
    pub edit_lines: Vec<(u32, u32)>,
}

/// Whether an issue between two lines is in the scope.
pub open spec fn in_scope(scope: FixScope, start_line: u32, end_line: u32) -> bool {
    match scope {
        FixScope::WholeFile => true,
        FixScope::Lines(ranges) => touched(ranges@, start_line, end_line),
    }
}

/// Whether the edits of an issue are applied.
pub open spec fn is_fixed(scope: FixScope, issue: FoundIssue) -> bool {
    &&& issue.has_edits
    &&& issue.edits_this_file
    &&& match issue.lines {
        Some((start_line, end_line)) => in_scope(scope, start_line, end_line),
        None => false,
    }
}

/// Both lines, and those between them, belong to one of the ranges.
pub open spec fn is_within(ranges: Seq<LineRange>, lines: (u32, u32)) -> bool {
    exists|i: int|
        0 <= i < ranges.len() && (#[trigger] ranges[i]).start <= lines.0 && lines.1
            <= ranges[i].end
}

/// Whether the edits of an issue are applied and touch no line outside the scope.
pub open spec fn is_fixed_within(scope: FixScope, issue: FoundIssue) -> bool {
    &&& is_fixed(scope, issue)
    &&& match scope {
        FixScope::WholeFile => true,
        FixScope::Lines(ranges) => forall|k: int|
            0 <= k < issue.edit_lines@.len() ==> is_within(
                ranges@,
                #[trigger] issue.edit_lines@[k],
            ),
    }
}

/// `list` has, in ascending order, the positions below `n` that `chosen` holds of.
pub open spec fn lists_positions(list: Seq<usize>, n: nat, chosen: spec_fn(int) -> bool) -> bool {
    &&& forall|k: int, l: int| 0 <= k < l < list.len() ==> (#[trigger] list[k]) < (#[trigger] list[l])
    &&& forall|k: int| 0 <= k < list.len() ==> (#[trigger] list[k]) < n && chosen(list[k] as int)
    &&& forall|i: int| 0 <= i < n && #[trigger] chosen(i) ==> list.contains(i as usize)
}

/// A list of the positions below `i`, with `i` behind it if it is chosen, is a list of the
/// positions up to `i`.
pub proof fn lemma_lists_next(list: Seq<usize>, i: usize, chosen: spec_fn(int) -> bool)
    requires
        lists_positions(list, i as nat, chosen),
        i < usize::MAX,
    ensures
        chosen(i as int) ==> lists_positions(list.push(i), (i + 1) as nat, chosen),
        !chosen(i as int) ==> lists_positions(list, (i + 1) as nat, chosen),
{
    let longer = list.push(i);
    assert forall|j: int| 0 <= j < i && #[trigger] chosen(j) implies longer.contains(
        j as usize,
    ) by {
        assert(list.contains(j as usize));
        let k = choose|k: int| 0 <= k < list.len() && list[k] == j as usize;
        assert(longer[k] == j as usize);
    }
    assert(longer[list.len() as int] == i);
}

/// Whether the edits of an issue are applied.
fn fixes(scope: &FixScope, issue: &FoundIssue) -> (r: bool)
    ensures
        r == is_fixed(*scope, *issue),
{
    issue.has_edits && issue.edits_this_file && match issue.lines {
        Some((start_line, end_line)) => {
            match scope {
                FixScope::WholeFile => true,
                FixScope::Lines(ranges) => touches_any(ranges.as_slice(), start_line, end_line),
            }
        },
        None => false,
    }
}

/// Whether two lines, and those between them, belong to one of the ranges.
fn within(ranges: &Vec<LineRange>, lines: (u32, u32)) -> (r: bool)
    ensures
        r == is_within(ranges@, lines),
{
    let mut i: usize = 0;
    while i < ranges.len()
        invariant
            i <= ranges@.len(),
            forall|j: int|
                0 <= j < i ==> !((#[trigger] ranges@[j]).start <= lines.0 && lines.1
                    <= ranges@[j].end),
        decreases ranges@.len() - i,
    {
        let first: u64 = ranges[i].start as u64;
        let last: u64 = ranges[i].end as u64;
        if first <= lines.0 as u64 && lines.1 as u64 <= last {
            assert(ranges@[i as int].start <= lines.0);
            return true;
        }
        i += 1;
    }
    false
}

/// Whether the edits of an issue are applied and touch no line outside the scope.
fn fixes_within(scope: &FixScope, issue: &FoundIssue) -> (r: bool)
    ensures
        r == is_fixed_within(*scope, *issue),
{
    if !fixes(scope, issue) {
        return false;
    }
    match scope {
        FixScope::WholeFile => true,
        FixScope::Lines(ranges) => {
            let mut k: usize = 0;
            while k < issue.edit_lines.len()
                invariant
                    k <= issue.edit_lines@.len(),
                    *scope == FixScope::Lines(*ranges),
                    forall|j: int|
                        0 <= j < k ==> is_within(ranges@, #[trigger] issue.edit_lines@[j]),
                decreases issue.edit_lines@.len() - k,
            {
                if !within(ranges, issue.edit_lines[k]) {
                    assert(!is_within(ranges@, issue.edit_lines@[k as int]));
                    return false;
                }
                k += 1;
            }
            true
        },
    }
}

/// The positions of the issues whose edits are applied, in their order.
pub fn select_batches(scope: &FixScope, issues: &Vec<FoundIssue>) -> (r: Vec<usize>)
    ensures
        lists_positions(r@, issues@.len(), |i: int| is_fixed(*scope, issues@[i])),
{
    let mut r: Vec<usize> = Vec::new();
    let mut i: usize = 0;
    let ghost chosen = |i: int| is_fixed(*scope, issues@[i]);
    while i < issues.len()
        invariant
            i <= issues@.len(),
            chosen == |i: int| is_fixed(*scope, issues@[i]),
            lists_positions(r@, i as nat, chosen),
        decreases issues@.len() - i,
    {
        let fixed = fixes(scope, &issues[i]);
        assert(fixed == chosen(i as int));
        proof {
            lemma_lists_next(r@, i, chosen);
        }
        if fixed {
            r.push(i);
        }
        i += 1;
    }
    r
}

/// The positions of the issues whose edits are applied and touch no line outside the scope.
pub fn select_within(scope: &FixScope, issues: &Vec<FoundIssue>) -> (r: Vec<usize>)
    ensures
        lists_positions(r@, issues@.len(), |i: int| is_fixed_within(*scope, issues@[i])),
{
    let mut r: Vec<usize> = Vec::new();
    let mut i: usize = 0;
    let ghost chosen = |i: int| is_fixed_within(*scope, issues@[i]);
    while i < issues.len()
        invariant
            i <= issues@.len(),
            chosen == |i: int| is_fixed_within(*scope, issues@[i]),
            lists_positions(r@, i as nat, chosen),
        decreases issues@.len() - i,
    {
        let fixed = fixes_within(scope, &issues[i]);
        assert(fixed == chosen(i as int));
        proof {
            lemma_lists_next(r@, i, chosen);
        }
        if fixed {
            r.push(i);
        }
        i += 1;
    }
    r
}

/// Where a range begins in a list of lines, counted from zero.
pub open spec fn first_index(range: LineRange) -> int {
    if range.start > 0 {
        range.start - 1
    } else {
        0
    }
}

/// Where a range ends in a list of lines, counted from zero.
pub open spec fn last_index(range: LineRange) -> int {
    if range.end > 0 {
        range.end - 1
    } else {
        0
    }
}

/// Whether a range can be cut out of `n` lines.
pub open spec fn can_cut(range: LineRange, n: nat) -> bool {
    first_index(range) <= last_index(range) < n
}

/// The lines of a range as one text, each ended by a newline.
pub open spec fn chunk(lines: Seq<Seq<char>>, range: LineRange) -> Seq<char> {
    crate::merge::text_of_lines(
        lines.subrange(first_index(range), last_index(range) + 1),
        true,
    )
}

/// The ranges that can be cut out of `n` lines.
pub open spec fn cut_ranges(ranges: Seq<LineRange>, n: nat) -> Seq<LineRange>
    decreases ranges.len(),
{
    if ranges.len() == 0 {
        seq![]
    } else if can_cut(ranges.last(), n) {
        cut_ranges(ranges.drop_last(), n).push(ranges.last())
    } else {
        cut_ranges(ranges.drop_last(), n)
    }
}

/// What is cut out of the lines, range by range.
pub open spec fn chunks(lines: Seq<Seq<char>>, ranges: Seq<LineRange>) -> Seq<Seq<char>> {
    Seq::new(ranges.len(), |i: int| chunk(lines, ranges[i]))
}

/// The lines of `range` as one text, each ended by a newline.
fn cut_chunk(lines: &Vec<String>, range: LineRange) -> (r: String)
    requires
        can_cut(range, lines@.len()),
    ensures
        r@ == chunk(crate::text::views(lines@), range),
{
    let first = range.start.saturating_sub(1);
    let last = range.end.saturating_sub(1);
    let mut parts: Vec<String> = Vec::new();
    let mut i: usize = first;
    while i <= last
        invariant
            first == first_index(range),
            last == last_index(range),
            first <= i <= last + 1 <= lines@.len(),
            crate::text::views(parts@) == crate::text::views(lines@).subrange(
                first as int,
                i as int,
            ),
        decreases last + 1 - i,
    {
        let part = lines[i].clone();
        assert(crate::text::views(parts@.push(part)) == crate::text::views(parts@).push(part@));
        assert(crate::text::views(lines@).subrange(first as int, i + 1) == crate::text::views(
            lines@,
        ).subrange(first as int, i as int).push(part@));
        parts.push(part);
        i += 1;
    }
    text_from_lines(&parts, true)
}

/// Cuts the ranges out of a fixed file: the ranges that it has all lines of, and the
/// text of each.
pub fn cut_chunks(fixed: &str, ranges: &[LineRange]) -> (r: (Vec<LineRange>, Vec<String>))
    ensures
        r.0@ == cut_ranges(ranges@, crate::text::lines(fixed@).len()),
        crate::text::views(r.1@) == chunks(crate::text::lines(fixed@), r.0@),
{
    let lines = lines_of(fixed);
    let ghost all = crate::text::lines(fixed@);
    let mut kept: Vec<LineRange> = Vec::new();
    let mut texts: Vec<String> = Vec::new();
    let mut i: usize = 0;
    assert(cut_ranges(ranges@.take(0), all.len()) == kept@);
    assert(crate::text::views(texts@) == chunks(all, kept@));
    while i < ranges.len()
        invariant
            i <= ranges@.len(),
            all == crate::text::views(lines@),
            kept@ == cut_ranges(ranges@.take(i as int), all.len()),
            crate::text::views(texts@) == chunks(all, kept@),
        decreases ranges@.len() - i,
    {
        let range = ranges[i];
        let first = range.start.saturating_sub(1);
        let last = range.end.saturating_sub(1);
        assert(ranges@.take(i + 1).drop_last() == ranges@.take(i as int));
        if first < lines.len() && last < lines.len() && first <= last {
            let text = cut_chunk(&lines, range);
            let ghost before = crate::text::views(texts@);
            assert(crate::text::views(texts@.push(text)) == before.push(text@));
            assert(chunks(all, kept@.push(range)) == chunks(all, kept@).push(text@));
            kept.push(range);
            texts.push(text);
        }
        i += 1;
    }
    assert(ranges@.take(ranges@.len() as int) == ranges@);
    (kept, texts)
}

/// What becomes of a file after its fixes were tried.
#[derive(Debug)]
pub enum FixOutcome {
    /// Nothing: the file stays as it is.
    Skip,
    /// It cannot be told which of the fixed lines belong to the ranges.
    Unclear,
    /// Nothing: the fixed lines could not be merged.
    Refused(MergeError),
    /// It gets this content.
    Write(String),
}

/// What becomes of a file after its fixes were tried, in the same cases.
pub enum FixResult {
    Skip,
    Unclear,
    Refused(MergeError),
    Write(Seq<char>),
}

/// Some fix was applied.
pub open spec fn any_applied(applied: Seq<bool>) -> bool {
    exists|i: int| 0 <= i < applied.len() && #[trigger] applied[i]
}

/// The file gets this content, if it is another than it has.
pub open spec fn write_new(contents: Seq<char>, text: Seq<char>) -> FixResult {
    if text == contents {
        FixResult::Skip
    } else {
        FixResult::Write(text)
    }
}

/// What becomes of a file of which only the lines of the ranges may change.
///
/// If no other line changed, and no other line end, the fixed content is taken as it is. If
/// only line ends changed outside the ranges, the fixed lines are taken, and the newline at
/// the end is that of the file. If more changed, the lines of the ranges are taken by their
/// numbers, which say nothing if lines were added or removed.
pub open spec fn lines_result(
    contents: Seq<char>,
    ranges: Seq<LineRange>,
    fixed: Seq<char>,
) -> FixResult {
    let lines = crate::text::lines(contents);
    let new_lines = crate::text::lines(fixed);
    let cut = cut_ranges(ranges, new_lines.len());
    if ranges.len() == 0 {
        FixResult::Skip
    } else if crate::inside::changed_inside(
        crate::text::raw_lines(contents),
        ranges,
        crate::text::raw_lines(fixed),
    ) {
        FixResult::Write(fixed)
    } else if crate::inside::changed_inside(lines, ranges, new_lines) {
        write_new(
            contents,
            crate::merge::text_of_lines(new_lines, crate::merge::ends_with_newline(contents)),
        )
    } else if new_lines.len() != lines.len() {
        FixResult::Unclear
    } else if cut.len() == 0 {
        FixResult::Skip
    } else {
        match crate::merge::merged(contents, cut, chunks(new_lines, cut)) {
            Err(e) => FixResult::Refused(e),
            Ok(text) => write_new(contents, text),
        }
    }
}

/// What becomes of a file. A whole file takes the fixed content as it is.
pub open spec fn fix_result(
    contents: Seq<char>,
    scope: FixScope,
    applied: Seq<bool>,
    fixed: Seq<char>,
) -> FixResult {
    if !any_applied(applied) || fixed == contents {
        FixResult::Skip
    } else {
        match scope {
            FixScope::WholeFile => FixResult::Write(fixed),
            FixScope::Lines(ranges) => lines_result(contents, ranges@, fixed),
        }
    }
}

/// Whether some fix was applied.
fn some_applied(applied: &Vec<bool>) -> (r: bool)
    ensures
        r == any_applied(applied@),
{
    let mut any = false;
    let mut i: usize = 0;
    while i < applied.len()
        invariant
            i <= applied@.len(),
            any == any_applied(applied@.take(i as int)),
        decreases applied@.len() - i,
    {
        proof {
            let before = applied@.take(i as int);
            let after = applied@.take(i + 1);
            if any_applied(before) {
                let j = choose|j: int| 0 <= j < before.len() && #[trigger] before[j];
                assert(after[j]);
            }
            if any_applied(after) && !applied@[i as int] {
                let j = choose|j: int| 0 <= j < after.len() && #[trigger] after[j];
                assert(before[j]);
            }
            if applied@[i as int] {
                assert(after[i as int]);
            }
        }
        if applied[i] {
            any = true;
        }
        i += 1;
    }
    assert(applied@.take(applied@.len() as int) == applied@);
    any
}

/// A text of lines that are all ended has as many lines.
proof fn lemma_ended_lines(lines: Seq<Seq<char>>)
    requires
        lines.len() > 0,
        crate::merge_laws::no_newlines(lines),
    ensures
        crate::text::lines(crate::merge::text_of_lines(lines, true)).len() == lines.len(),
    decreases lines.len(),
{
    let text = crate::merge::text_of_lines(lines, true);
    let first = lines[0];
    assert forall|i: int| 0 <= i < first.len() implies first[i] != '\n' by {
        assert(first.contains(first[i]));
    }
    let rest = lines.skip(1);
    let after = if lines.len() == 1 {
        Seq::<char>::empty()
    } else {
        crate::merge::text_of_lines(rest, true)
    };
    assert(text == first + seq!['\n'] + after);
    crate::text::lemma_find_is(text, '\n', first.len() as int);
    assert(text.skip((first.len() + 1) as int) == after);
    if lines.len() == 1 {
        assert(crate::text::lines(after).len() == 0);
    } else {
        assert forall|i: int| 0 <= i < rest.len() implies !(#[trigger] rest[i]).contains(
            '\n',
        ) by {
            assert(rest[i] == lines[i + 1]);
        }
        lemma_ended_lines(rest);
    }
}

/// Replacements that keep the number of lines fit.
proof fn lemma_same_lengths_fit(lines: Seq<Seq<char>>, list: Seq<Replacement>)
    requires
        forall|i: int|
            0 <= i < list.len() ==> 1 <= (#[trigger] list[i]).0.start <= list[i].0.end
                <= lines.len() && list[i].1.len() == list[i].0.end - list[i].0.start + 1,
    ensures
        crate::merge::all_fit(lines, list),
    decreases list.len(),
{
    if list.len() > 0 {
        let after = crate::merge::replaced(lines, list[0]);
        assert(after.len() == lines.len());
        let rest = list.skip(1);
        assert forall|i: int| 0 <= i < rest.len() implies 1 <= (#[trigger] rest[i]).0.start
            <= rest[i].0.end <= after.len() && rest[i].1.len() == rest[i].0.end
            - rest[i].0.start + 1 by {
            assert(rest[i] == list[i + 1]);
        }
        lemma_same_lengths_fit(after, rest);
    }
}

/// Lines that are taken by their numbers can always be merged.
proof fn lemma_cut_lines_fit(contents: Seq<char>, ranges: Seq<LineRange>, fixed: Seq<char>)
    ensures
        ({
            let lines = crate::text::lines(fixed);
            let cut = cut_ranges(ranges, lines.len());
            crate::merge::fits(contents, cut, chunks(lines, cut))
        }),
{
    let lines = crate::text::lines(fixed);
    let old = crate::text::lines(contents);
    let cut = cut_ranges(ranges, lines.len());
    let texts = chunks(lines, cut);
    crate::merge_laws::accepted_iff_in_bounds(old.len(), cut, texts.len());
    if crate::merge::rejection(old.len(), cut, texts.len()) is None {
        let list = crate::merge::replacements(cut, texts);
        let down = crate::merge::bottom_up(list);
        crate::text::lemma_lines_have_no_newline(fixed);
        crate::fix_laws::cutting_keeps_the_order(ranges, lines.len());
        assert forall|i: int| 0 <= i < down.len() implies 1 <= (#[trigger] down[i]).0.start
            <= down[i].0.end <= old.len() && down[i].1.len() == down[i].0.end - down[i].0.start
            + 1 by {
            assert(down.contains(down[i]));
            crate::merge_laws::lemma_bottom_up_from(list, down[i]);
            let k = choose|k: int| 0 <= k < list.len() && list[k] == down[i];
            assert(list[k].0 == cut[k]);
            assert(can_cut(cut[k], lines.len()));
            let part = lines.subrange(first_index(cut[k]), last_index(cut[k]) + 1);
            assert forall|j: int| 0 <= j < part.len() implies !(#[trigger] part[j]).contains(
                '\n',
            ) by {
                assert(part[j] == lines[first_index(cut[k]) + j]);
            }
            lemma_ended_lines(part);
            assert(texts[k] == crate::merge::text_of_lines(part, true));
        }
        lemma_same_lengths_fit(old, down);
    }
}

/// The file gets this content, if it is another than it has.
fn write_if_new(contents: &String, text: String) -> (r: FixOutcome)
    ensures
        is_outcome(write_new(contents@, text@), r),
{
    if text == *contents {
        FixOutcome::Skip
    } else {
        FixOutcome::Write(text)
    }
}

/// Takes the fixed lines of the ranges over into a file, where no other line may change.
fn take_lines(contents: &String, ranges: &[LineRange], fixed: String) -> (r: FixOutcome)
    ensures
        is_outcome(lines_result(contents@, ranges@, fixed@), r),
{
    if ranges.len() == 0 {
        return FixOutcome::Skip;
    }
    let raw = raw_lines_of(contents.as_str());
    let new_raw = raw_lines_of(fixed.as_str());
    if changes_inside(&raw, ranges, &new_raw) {
        return FixOutcome::Write(fixed);
    }
    let lines = lines_of(contents.as_str());
    let new_lines = lines_of(fixed.as_str());
    if changes_inside(&lines, ranges, &new_lines) {
        let text = text_from_lines(&new_lines, ends_newline(contents.as_str()));
        return write_if_new(contents, text);
    }
    if new_lines.len() != lines.len() {
        assert(crate::text::views(lines@).len() != crate::text::views(new_lines@).len());
        return FixOutcome::Unclear;
    }
    assert(crate::text::views(lines@).len() == crate::text::views(new_lines@).len());
    let (kept, texts) = cut_chunks(fixed.as_str(), ranges);
    assert(crate::text::views(texts@).len() == kept@.len());
    if texts.len() == 0 {
        return FixOutcome::Skip;
    }
    proof {
        lemma_cut_lines_fit(contents@, ranges@, fixed@);
    }
    match merge_formatted_lines(contents.as_str(), kept.as_slice(), texts) {
        Err(e) => FixOutcome::Refused(e),
        Ok(text) => write_if_new(contents, text),
    }
}

/// The outcome is this result.
pub open spec fn is_outcome(result: FixResult, outcome: FixOutcome) -> bool {
    match outcome {
        FixOutcome::Skip => result is Skip,
        FixOutcome::Unclear => result is Unclear,
        FixOutcome::Refused(e) => result == FixResult::Refused(e),
        FixOutcome::Write(text) => result == FixResult::Write(text@),
    }
}

/// Takes the fixed lines of the scope over into a file.
///
/// `applied` says of each batch of edits whether it was applied, and `fixed` is the content
/// with all of them. A whole file takes the fixed content as it is; of another only the
/// lines of the ranges are taken over.
pub fn fix_outcome(
    contents: &String,
    scope: &FixScope,
    applied: &Vec<bool>,
    fixed: String,
) -> (r: FixOutcome)
    ensures
        is_outcome(fix_result(contents@, *scope, applied@, fixed@), r),
{
    if !some_applied(applied) || fixed == *contents {
        return FixOutcome::Skip;
    }
    match scope {
        FixScope::WholeFile => FixOutcome::Write(fixed),
        FixScope::Lines(ranges) => take_lines(contents, ranges.as_slice(), fixed),
    }
}

} // verus!
