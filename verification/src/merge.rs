//! Merging of replacement chunks into the content of a file.
//!
//! Ranges are applied from the bottom of the file to the top, so that replacing one
//! does not shift the lines that another refers to.
use crate::text::{chars_of, decimal_of, join_strings, lines_of};
use vstd::prelude::*;

verus! {

/// A range of lines of a file, both ends included. Lines are numbered from one, as in
/// the output of `git diff`.
#[derive(Debug, Clone, Copy, PartialEq, Eq, Structural)]
pub struct LineRange {
    /// The first line of the range.
    pub start: usize,
    /// The last line of the range.
    pub end: usize,
}

/// Why a merge was refused.
#[derive(Debug, Clone, PartialEq, Eq, Structural)]
pub enum MergeError {
    /// A range starts behind its own end.
    InvalidRange { start: usize, end: usize },
    /// There are not as many chunks as ranges.
    ChunkCountMismatch { expected: usize, got: usize },
    /// A range names a line that the content does not have.
    LineNotFound { line: usize },
}

/// What a refused merge is reported as.
pub open spec fn message(e: MergeError) -> Seq<char> {
    match e {
        MergeError::InvalidRange { start, end } => "Invalid line range: start ("@
            + crate::text::decimal(start as nat) + ") > end ("@ + crate::text::decimal(end as nat)
            + ")"@,
        MergeError::ChunkCountMismatch { expected, got } => "Chunk count mismatch: expected "@
            + crate::text::decimal(expected as nat) + " chunks, got "@ + crate::text::decimal(
            got as nat,
        ),
        MergeError::LineNotFound { line } => "Line "@ + crate::text::decimal(line as nat)
            + " not found in original content"@,
    }
}

impl MergeError {
    /// The error as a sentence.
    pub fn to_string(&self) -> (r: String)
        ensures
            r@ == message(*self),
    {
        match self {
            MergeError::InvalidRange { start, end } => {
                let mut r = "Invalid line range: start (".to_owned();
                r.append(decimal_of(*start).as_str());
                r.append(") > end (");
                r.append(decimal_of(*end).as_str());
                r.append(")");
                r
            },
            MergeError::ChunkCountMismatch { expected, got } => {
                let mut r = "Chunk count mismatch: expected ".to_owned();
                r.append(decimal_of(*expected).as_str());
                r.append(" chunks, got ");
                r.append(decimal_of(*got).as_str());
                r
            },
            MergeError::LineNotFound { line } => {
                let mut r = "Line ".to_owned();
                r.append(decimal_of(*line).as_str());
                r.append(" not found in original content");
                r
            },
        }
    }
}

/// A range together with the lines that take its place.
pub type Replacement = (LineRange, Seq<Seq<char>>);

/// The replacements that ranges and chunks describe, in the order given.
pub open spec fn replacements(ranges: Seq<LineRange>, chunks: Seq<Seq<char>>) -> Seq<Replacement> {
    Seq::new(ranges.len(), |i: int| (ranges[i], crate::text::lines(chunks[i])))
}

/// `r` put behind every replacement that starts no higher in the file.
pub open spec fn place(sorted: Seq<Replacement>, r: Replacement) -> Seq<Replacement>
    decreases sorted.len(),
{
    if sorted.len() == 0 || r.0.start <= sorted.last().0.start {
        sorted.push(r)
    } else {
        place(sorted.drop_last(), r).push(sorted.last())
    }
}

/// The replacements by descending start; those with equal starts keep their order.
pub open spec fn bottom_up(list: Seq<Replacement>) -> Seq<Replacement>
    decreases list.len(),
{
    if list.len() == 0 {
        seq![]
    } else {
        place(bottom_up(list.drop_last()), list.last())
    }
}

/// The lines after one replacement.
pub open spec fn replaced(lines: Seq<Seq<char>>, r: Replacement) -> Seq<Seq<char>> {
    lines.take(r.0.start - 1) + r.1 + lines.skip(r.0.end as int)
}

/// The lines after all replacements, the first of the list first.
pub open spec fn replaced_all(lines: Seq<Seq<char>>, list: Seq<Replacement>) -> Seq<Seq<char>>
    decreases list.len(),
{
    if list.len() == 0 {
        lines
    } else {
        replaced_all(replaced(lines, list[0]), list.skip(1))
    }
}

/// Each replacement, when its turn comes, still finds all its lines.
pub open spec fn all_fit(lines: Seq<Seq<char>>, list: Seq<Replacement>) -> bool
    decreases list.len(),
{
    list.len() == 0 || (list[0].0.end <= lines.len() && all_fit(
        replaced(lines, list[0]),
        list.skip(1),
    ))
}

/// What can be wrong with a range.
pub enum Fault {
    /// It starts behind its end.
    Inverted,
    /// It ends below the last line.
    Below,
    /// It starts at line zero.
    Above,
}

/// Whether a range has a fault, in a content of `total` lines.
pub open spec fn has_fault(range: LineRange, fault: Fault, total: nat) -> bool {
    match fault {
        Fault::Inverted => range.start > range.end,
        Fault::Below => range.end > total,
        Fault::Above => range.start == 0,
    }
}

/// The position of the first range with a fault, or the number of ranges.
pub open spec fn first_fault(ranges: Seq<LineRange>, fault: Fault, total: nat) -> int
    decreases ranges.len(),
{
    if ranges.len() == 0 || has_fault(ranges[0], fault, total) {
        0
    } else {
        1 + first_fault(ranges.skip(1), fault, total)
    }
}

/// Why ranges and chunks do not suit a content of `total` lines, if they do not.
///
/// A wrong number of chunks comes before a range that starts behind its end, that
/// before a range that ends below the last line, and that before a range that starts at
/// line zero. Of several ranges at fault the first counts.
pub open spec fn rejection(total: nat, ranges: Seq<LineRange>, chunks: nat) -> Option<MergeError> {
    let inverted = first_fault(ranges, Fault::Inverted, total);
    let below = first_fault(ranges, Fault::Below, total);
    let above = first_fault(ranges, Fault::Above, total);
    if chunks != ranges.len() {
        Some(MergeError::ChunkCountMismatch { expected: ranges.len() as usize, got: chunks as usize })
    } else if inverted < ranges.len() {
        Some(MergeError::InvalidRange { start: ranges[inverted].start, end: ranges[inverted].end })
    } else if below < ranges.len() {
        Some(MergeError::LineNotFound { line: ranges[below].end })
    } else if above < ranges.len() {
        Some(MergeError::LineNotFound { line: 0 })
    } else {
        None
    }
}

/// The lines as one text, which ends with a newline if `newline` says so.
pub open spec fn text_of_lines(lines: Seq<Seq<char>>, newline: bool) -> Seq<char> {
    crate::text::join(lines, seq!['\n']) + (if newline { seq!['\n'] } else { seq![] })
}

/// Whether a text ends with a newline.
pub open spec fn ends_with_newline(text: Seq<char>) -> bool {
    text.len() > 0 && text.last() == '\n'
}

/// The outcome of a merge.
pub open spec fn merged(
    original: Seq<char>,
    ranges: Seq<LineRange>,
    chunks: Seq<Seq<char>>,
) -> Result<Seq<char>, MergeError> {
    let lines = crate::text::lines(original);
    match rejection(lines.len(), ranges, chunks.len()) {
        Some(e) => Err(e),
        None => Ok(
            if ranges.len() == 0 {
                original
            } else {
                text_of_lines(
                    replaced_all(lines, bottom_up(replacements(ranges, chunks))),
                    ends_with_newline(original),
                )
            },
        ),
    }
}

/// No replacement of the merge loses lines that a later one still needs. This can only
/// fail where ranges overlap.
pub open spec fn fits(original: Seq<char>, ranges: Seq<LineRange>, chunks: Seq<Seq<char>>) -> bool {
    let lines = crate::text::lines(original);
    rejection(lines.len(), ranges, chunks.len()) is None ==> all_fit(
        lines,
        bottom_up(replacements(ranges, chunks)),
    )
}

/// Where `place` puts a replacement.
pub proof fn lemma_place_at(sorted: Seq<Replacement>, r: Replacement, pos: int)
    requires
        0 <= pos <= sorted.len(),
        forall|k: int| pos <= k < sorted.len() ==> sorted[k].0.start < r.0.start,
        pos > 0 ==> r.0.start <= sorted[pos - 1].0.start,
    ensures
        place(sorted, r) == sorted.insert(pos, r),
    decreases sorted.len(),
{
    if pos == sorted.len() {
        assert(sorted.insert(pos, r) == sorted.push(r));
    } else {
        assert(sorted.last().0.start < r.0.start);
        lemma_place_at(sorted.drop_last(), r, pos);
        assert(sorted.insert(pos, r) == sorted.drop_last().insert(pos, r).push(sorted.last()));
    }
}

/// The positions of the ranges in the order in which they are applied.
fn bottom_up_order(ranges: &[LineRange], Ghost(list): Ghost<Seq<Replacement>>) -> (order: Vec<usize>)
    requires
        list.len() == ranges@.len(),
        forall|i: int| 0 <= i < list.len() ==> (#[trigger] list[i]).0 == ranges@[i],
    ensures
        order@.len() == list.len(),
        forall|k: int| 0 <= k < order@.len() ==> (#[trigger] order@[k]) < list.len(),
        bottom_up(list) == Seq::new(order@.len(), |k: int| list[order@[k] as int]),
{
    let mut order: Vec<usize> = Vec::new();
    let mut i: usize = 0;
    assert(bottom_up(list.take(0)) == Seq::new(0, |k: int| list[order@[k] as int]));
    while i < ranges.len()
        invariant
            i <= ranges@.len(),
            list.len() == ranges@.len(),
            forall|j: int| 0 <= j < list.len() ==> (#[trigger] list[j]).0 == ranges@[j],
            order@.len() == i,
            forall|k: int| 0 <= k < order@.len() ==> (#[trigger] order@[k]) < list.len(),
            bottom_up(list.take(i as int)) == Seq::new(
                order@.len(),
                |k: int| list[order@[k] as int],
            ),
        decreases ranges@.len() - i,
    {
        let mut pos: usize = order.len();
        let ghost sorted = Seq::new(order@.len(), |k: int| list[order@[k] as int]);
        while pos > 0 && ranges[order[pos - 1]].start < ranges[i].start
            invariant
                pos <= order@.len(),
                i < ranges@.len(),
                list.len() == ranges@.len(),
                forall|j: int| 0 <= j < list.len() ==> (#[trigger] list[j]).0 == ranges@[j],
                forall|k: int| 0 <= k < order@.len() ==> (#[trigger] order@[k]) < list.len(),
                sorted == Seq::new(order@.len(), |k: int| list[order@[k] as int]),
                forall|k: int|
                    pos <= k < sorted.len() ==> (#[trigger] sorted[k]).0.start
                        < ranges@[i as int].start,
            decreases pos,
        {
            assert(sorted[pos - 1] == list[order@[pos - 1] as int]);
            pos -= 1;
        }
        proof {
            if pos > 0 {
                assert(sorted[pos - 1] == list[order@[pos - 1] as int]);
            }
            let next = list.take(i + 1);
            assert(next.drop_last() == list.take(i as int));
            assert(next.last() == list[i as int]);
            lemma_place_at(sorted, list[i as int], pos as int);
        }
        order.insert(pos, i);
        assert(sorted.insert(pos as int, list[i as int]) == Seq::new(
            order@.len(),
            |k: int| list[order@[k] as int],
        ));
        i += 1;
    }
    assert(list.take(list.len() as int) == list);
    order
}

pub proof fn lemma_first_fault(ranges: Seq<LineRange>, fault: Fault, total: nat)
    ensures
        0 <= first_fault(ranges, fault, total) <= ranges.len(),
        forall|i: int|
            0 <= i < first_fault(ranges, fault, total) ==> !has_fault(ranges[i], fault, total),
        first_fault(ranges, fault, total) < ranges.len() ==> has_fault(
            ranges[first_fault(ranges, fault, total)],
            fault,
            total,
        ),
    decreases ranges.len(),
{
    if ranges.len() > 0 && !has_fault(ranges[0], fault, total) {
        lemma_first_fault(ranges.skip(1), fault, total);
        assert forall|i: int| 0 <= i < first_fault(ranges, fault, total) implies !has_fault(
            ranges[i],
            fault,
            total,
        ) by {
            if i > 0 {
                assert(ranges.skip(1)[i - 1] == ranges[i]);
            }
        }
    }
}

/// The position of the first range with a fault, or the number of ranges.
fn find_fault(ranges: &[LineRange], fault: Fault, total: usize) -> (r: usize)
    ensures
        r == first_fault(ranges@, fault, total as nat),
        r <= ranges@.len(),
{
    let mut i: usize = 0;
    proof {
        lemma_first_fault(ranges@, fault, total as nat);
    }
    while i < ranges.len()
        invariant
            i <= ranges@.len(),
            i <= first_fault(ranges@, fault, total as nat) <= ranges@.len(),
            first_fault(ranges@, fault, total as nat) < ranges@.len() ==> has_fault(
                ranges@[first_fault(ranges@, fault, total as nat)],
                fault,
                total as nat,
            ),
            forall|j: int|
                0 <= j < first_fault(ranges@, fault, total as nat) ==> !has_fault(
                    ranges@[j],
                    fault,
                    total as nat,
                ),
        decreases ranges@.len() - i,
    {
        let bad = match fault {
            Fault::Inverted => ranges[i].start > ranges[i].end,
            Fault::Below => ranges[i].end > total,
            Fault::Above => ranges[i].start == 0,
        };
        if bad {
            return i;
        }
        i += 1;
    }
    i
}

/// Why ranges and chunks do not suit a content of `total` lines, if they do not.
fn reject(total: usize, ranges: &[LineRange], chunks: usize) -> (r: Option<MergeError>)
    ensures
        r == rejection(total as nat, ranges@, chunks as nat),
        r is None ==> chunks == ranges@.len(),
        r is None ==> forall|i: int|
            0 <= i < ranges@.len() ==> 1 <= (#[trigger] ranges@[i]).start <= ranges@[i].end
                <= total,
{
    if chunks != ranges.len() {
        return Some(MergeError::ChunkCountMismatch { expected: ranges.len(), got: chunks });
    }
    let inverted = find_fault(ranges, Fault::Inverted, total);
    if inverted < ranges.len() {
        let range = ranges[inverted];
        return Some(MergeError::InvalidRange { start: range.start, end: range.end });
    }
    let below = find_fault(ranges, Fault::Below, total);
    if below < ranges.len() {
        return Some(MergeError::LineNotFound { line: ranges[below].end });
    }
    let above = find_fault(ranges, Fault::Above, total);
    if above < ranges.len() {
        return Some(MergeError::LineNotFound { line: 0 });
    }
    proof {
        lemma_first_fault(ranges@, Fault::Inverted, total as nat);
        lemma_first_fault(ranges@, Fault::Below, total as nat);
        lemma_first_fault(ranges@, Fault::Above, total as nat);
        assert forall|i: int| 0 <= i < ranges@.len() implies 1 <= (#[trigger] ranges@[i]).start
            <= ranges@[i].end <= total by {
            assert(!has_fault(ranges@[i], Fault::Inverted, total as nat));
            assert(!has_fault(ranges@[i], Fault::Below, total as nat));
            assert(!has_fault(ranges@[i], Fault::Above, total as nat));
        }
    }
    None
}

/// Puts `chunk` in the place of the lines of `range`.
fn splice(lines: &mut Vec<String>, range: LineRange, chunk: &str)
    requires
        1 <= range.start <= range.end <= old(lines)@.len(),
    ensures
        crate::text::views(final(lines)@) == replaced(
            crate::text::views(old(lines)@),
            (range, crate::text::lines(chunk@)),
        ),
{
    let mut tail = lines.split_off(range.end);
    lines.truncate(range.start - 1);
    let mut new_lines = lines_of(chunk);
    let ghost middle = new_lines@;
    lines.append(&mut new_lines);
    lines.append(&mut tail);
    assert(crate::text::views(lines@) == crate::text::views(old(lines)@).take(range.start - 1)
        + crate::text::views(middle) + crate::text::views(old(lines)@).skip(range.end as int));
}

/// Whether the ranges and chunks can be merged without one replacement taking away lines
/// that a later one needs.
pub fn replacements_fit(original: &str, ranges: &[LineRange], formatted_chunks: &Vec<String>) -> (r: bool)
    ensures
        r == fits(original@, ranges@, crate::text::views(formatted_chunks@)),
{
    let lines = lines_of(original);
    if reject(lines.len(), ranges, formatted_chunks.len()).is_some() {
        return true;
    }
    let ghost list = replacements(ranges@, crate::text::views(formatted_chunks@));
    let order = bottom_up_order(ranges, Ghost(list));
    let ghost sorted = bottom_up(list);
    let mut result = lines;
    let mut k: usize = 0;
    assert(sorted.skip(0) == sorted);
    while k < order.len()
        invariant
            k <= order@.len() == sorted.len(),
            ranges@.len() == formatted_chunks@.len(),
            list == replacements(ranges@, crate::text::views(formatted_chunks@)),
            sorted == Seq::new(order@.len(), |j: int| list[order@[j] as int]),
            forall|j: int| 0 <= j < order@.len() ==> (#[trigger] order@[j]) < list.len(),
            forall|i: int|
                0 <= i < ranges@.len() ==> 1 <= (#[trigger] ranges@[i]).start <= ranges@[i].end,
            sorted == bottom_up(list),
            rejection(
                crate::text::lines(original@).len(),
                ranges@,
                formatted_chunks@.len(),
            ) is None,
            all_fit(crate::text::lines(original@), sorted) == all_fit(
                crate::text::views(result@),
                sorted.skip(k as int),
            ),
        decreases order@.len() - k,
    {
        let i = order[k];
        let ghost before = crate::text::views(result@);
        assert(sorted.skip(k as int)[0] == list[i as int]);
        assert(sorted.skip(k as int).skip(1) == sorted.skip(k + 1));
        if ranges[i].end > result.len() {
            assert(!all_fit(before, sorted.skip(k as int)));
            return false;
        }
        splice(&mut result, ranges[i], formatted_chunks[i].as_str());
        k += 1;
    }
    true
}

/// Replaces each range of lines of `original` by the chunk at the same position.
///
/// The result ends with a newline if the original does. With neither ranges nor chunks the
/// original is returned as it is. Merging is refused if there are not as many chunks as
/// ranges, if a range starts behind its end, or if a range names a line that does not exist.
pub fn merge_formatted_lines(
    original: &str,
    ranges: &[LineRange],
    formatted_chunks: Vec<String>,
) -> (r: Result<String, MergeError>)
    requires
        fits(original@, ranges@, crate::text::views(formatted_chunks@)),
    ensures
        match r {
            Ok(text) => merged(original@, ranges@, crate::text::views(formatted_chunks@)) == Ok::<
                Seq<char>,
                MergeError,
            >(text@),
            Err(e) => merged(original@, ranges@, crate::text::views(formatted_chunks@)) == Err::<
                Seq<char>,
                MergeError,
            >(e),
        },
{
    let lines = lines_of(original);
    let ghost start = crate::text::views(lines@);
    match reject(lines.len(), ranges, formatted_chunks.len()) {
        Some(e) => {
            return Err(e);
        },
        None => {},
    }
    if ranges.len() == 0 {
        return Ok(original.to_owned());
    }
    let ghost list = replacements(ranges@, crate::text::views(formatted_chunks@));
    let order = bottom_up_order(ranges, Ghost(list));
    let ghost sorted = bottom_up(list);
    let mut result = lines;
    let mut k: usize = 0;
    assert(sorted.skip(0) == sorted);
    while k < order.len()
        invariant
            k <= order@.len() == sorted.len(),
            ranges@.len() == formatted_chunks@.len(),
            list == replacements(ranges@, crate::text::views(formatted_chunks@)),
            sorted == Seq::new(order@.len(), |j: int| list[order@[j] as int]),
            forall|j: int| 0 <= j < order@.len() ==> (#[trigger] order@[j]) < list.len(),
            forall|i: int|
                0 <= i < ranges@.len() ==> 1 <= (#[trigger] ranges@[i]).start <= ranges@[i].end,
            all_fit(crate::text::views(result@), sorted.skip(k as int)),
            replaced_all(start, sorted) == replaced_all(
                crate::text::views(result@),
                sorted.skip(k as int),
            ),
        decreases order@.len() - k,
    {
        let i = order[k];
        assert(sorted.skip(k as int)[0] == list[i as int]);
        assert(sorted.skip(k as int).skip(1) == sorted.skip(k + 1));
        splice(&mut result, ranges[i], formatted_chunks[i].as_str());
        k += 1;
    }
    Ok(text_from_lines(&result, ends_newline(original)))
}

/// The lines as one text, which ends with a newline if `newline` says so.
pub fn text_from_lines(lines: &Vec<String>, newline: bool) -> (r: String)
    ensures
        r@ == text_of_lines(crate::text::views(lines@), newline),
{
    let mut text = join_strings(lines, "\n");
    proof {
        reveal_strlit("\n");
        assert("\n"@ == seq!['\n']);
    }
    let ghost body = text@;
    if newline {
        text.push('\n');
    }
    assert(text@ == body + (if newline { seq!['\n'] } else { seq![] }));
    text
}

/// Whether a text ends with a newline.
pub fn ends_newline(text: &str) -> (r: bool)
    ensures
        r == ends_with_newline(text@),
{
    let chars = chars_of(text);
    chars.len() > 0 && chars[chars.len() - 1] == '\n'
}

} // verus!
