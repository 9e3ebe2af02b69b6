//! Whether the lines of a text changed only inside some ranges.
use crate::expand::sort_by_start;
use crate::merge::{LineRange, Replacement};
use vstd::prelude::*;

verus! {

/// The list replaces exactly these ranges.
pub open spec fn replaces(list: Seq<Replacement>, ranges: Seq<LineRange>) -> bool {
    &&& list.len() == ranges.len()
    &&& forall|i: int| 0 <= i < list.len() ==> (#[trigger] list[i]).0 == ranges[i]
}

/// `new_lines` are the lines from `from` on with each of the ranges replaced by some lines,
/// and no other line changed. The ranges follow one another.
pub open spec fn changed_only(
    lines: Seq<Seq<char>>,
    from: int,
    ranges: Seq<LineRange>,
    new_lines: Seq<Seq<char>>,
) -> bool {
    exists|list: Seq<Replacement>| #[trigger]
        replaces(list, ranges) && new_lines == crate::merge_laws::substituted(lines, from, list)
}

/// The ranges, in whatever order they are given, have no line in common, and no line outside
/// them changed.
pub open spec fn changed_inside(
    lines: Seq<Seq<char>>,
    ranges: Seq<LineRange>,
    new_lines: Seq<Seq<char>>,
) -> bool {
    let sorted = crate::expand::by_start(ranges);
    &&& crate::merge_laws::in_bounds(sorted, lines.len())
    &&& crate::merge_laws::ascending(sorted)
    &&& changed_only(lines, 0, sorted, new_lines)
}

/// Where the lines before range `i` start that no range before it has.
spec fn gap_start(ranges: Seq<LineRange>, i: int) -> int {
    if i == 0 {
        0
    } else {
        ranges[i - 1].end as int
    }
}

/// Where those lines end; behind the last range they go up to the last line.
spec fn gap_end(ranges: Seq<LineRange>, total: int, i: int) -> int {
    if i == ranges.len() {
        total
    } else {
        ranges[i].start - 1
    }
}

/// From `pos` on the new lines are those before range `i`, then range `i` replaced, and so
/// on to the end.
spec fn tail_at(
    lines: Seq<Seq<char>>,
    ranges: Seq<LineRange>,
    new_lines: Seq<Seq<char>>,
    i: int,
    pos: int,
) -> bool {
    changed_only(lines, gap_start(ranges, i), ranges.skip(i), new_lines.skip(pos))
}

/// The lines from `from` up to `to` stand at `pos` in the new lines.
spec fn stands_at(
    lines: Seq<Seq<char>>,
    from: int,
    to: int,
    new_lines: Seq<Seq<char>>,
    pos: int,
) -> bool {
    pos + (to - from) <= new_lines.len() && new_lines.subrange(pos, pos + (to - from))
        == lines.subrange(from, to)
}

/// `last` is the last position where the tail stands that starts before range `i`.
spec fn is_last_tail(
    lines: Seq<Seq<char>>,
    ranges: Seq<LineRange>,
    new_lines: Seq<Seq<char>>,
    i: int,
    last: Option<usize>,
) -> bool {
    match last {
        Some(p) => {
            &&& p <= new_lines.len()
            &&& tail_at(lines, ranges, new_lines, i, p as int)
            &&& forall|q: int|
                p < q <= new_lines.len() ==> !#[trigger] tail_at(lines, ranges, new_lines, i, q)
        },
        None => forall|q: int|
            0 <= q <= new_lines.len() ==> !#[trigger] tail_at(lines, ranges, new_lines, i, q),
    }
}

proof fn lemma_changed_none(lines: Seq<Seq<char>>, from: int, new_lines: Seq<Seq<char>>)
    ensures
        changed_only(lines, from, Seq::<LineRange>::empty(), new_lines) <==> new_lines
            == lines.skip(from),
{
    let none = Seq::<LineRange>::empty();
    if changed_only(lines, from, none, new_lines) {
        let list = choose|list: Seq<Replacement>| #[trigger]
            replaces(list, none) && new_lines == crate::merge_laws::substituted(
                lines,
                from,
                list,
            );
        assert(list.len() == 0);
    }
    if new_lines == lines.skip(from) {
        let list = Seq::<Replacement>::empty();
        assert(replaces(list, none));
        assert(crate::merge_laws::substituted(lines, from, list) == lines.skip(from));
    }
}

proof fn lemma_changed_first(
    lines: Seq<Seq<char>>,
    from: int,
    ranges: Seq<LineRange>,
    new_lines: Seq<Seq<char>>,
    x: int,
)
    requires
        ranges.len() > 0,
        0 <= from < ranges[0].start <= ranges[0].end <= lines.len(),
    ensures
        ({
            let gap = ranges[0].start - 1 - from;
            stands_at(lines, from, ranges[0].start - 1, new_lines, 0) && 0 <= x <= new_lines.len()
                - gap && changed_only(
                lines,
                ranges[0].end as int,
                ranges.skip(1),
                new_lines.skip(gap + x),
            )
        }) ==> changed_only(lines, from, ranges, new_lines),
{
    let gap = ranges[0].start - 1 - from;
    let rest = ranges.skip(1);
    let end = ranges[0].end as int;
    if stands_at(lines, from, ranges[0].start - 1, new_lines, 0) && 0 <= x <= new_lines.len() - gap
        && changed_only(lines, end, rest, new_lines.skip(gap + x)) {
        let tail = choose|list: Seq<Replacement>| #[trigger]
            replaces(list, rest) && new_lines.skip(gap + x) == crate::merge_laws::substituted(
                lines,
                end,
                list,
            );
        let first: Replacement = (ranges[0], new_lines.subrange(gap, gap + x));
        let list = seq![first] + tail;
        assert(list.skip(1) == tail);
        assert forall|i: int| 0 <= i < list.len() implies (#[trigger] list[i]).0 == ranges[i] by {
            if i > 0 {
                assert(list[i] == tail[i - 1]);
                assert(tail[i - 1].0 == rest[i - 1]);
            }
        }
        assert(replaces(list, ranges));
        assert(new_lines == lines.subrange(from, ranges[0].start - 1) + first.1 + new_lines.skip(
            gap + x,
        )) by {
            assert(new_lines.subrange(0, gap) == lines.subrange(from, ranges[0].start - 1));
            assert(new_lines == new_lines.subrange(0, gap) + new_lines.subrange(gap, gap + x)
                + new_lines.skip(gap + x));
        }
    }
}

proof fn lemma_changed_first_only(
    lines: Seq<Seq<char>>,
    from: int,
    ranges: Seq<LineRange>,
    new_lines: Seq<Seq<char>>,
) -> (x: int)
    requires
        ranges.len() > 0,
        0 <= from < ranges[0].start <= ranges[0].end <= lines.len(),
        changed_only(lines, from, ranges, new_lines),
    ensures
        stands_at(lines, from, ranges[0].start - 1, new_lines, 0),
        0 <= x <= new_lines.len() - (ranges[0].start - 1 - from),
        changed_only(
            lines,
            ranges[0].end as int,
            ranges.skip(1),
            new_lines.skip(ranges[0].start - 1 - from + x),
        ),
{
    let gap = ranges[0].start - 1 - from;
    let end = ranges[0].end as int;
    let list = choose|list: Seq<Replacement>| #[trigger]
        replaces(list, ranges) && new_lines == crate::merge_laws::substituted(lines, from, list);
    assert(list[0].0 == ranges[0]);
    let tail = list.skip(1);
    let rest = crate::merge_laws::substituted(lines, end, tail);
    let head = lines.subrange(from, ranges[0].start - 1);
    assert(new_lines == head + list[0].1 + rest);
    let x = list[0].1.len() as int;
    assert(new_lines.subrange(0, gap) == head);
    assert(new_lines.skip(gap + x) == rest);
    assert forall|i: int| 0 <= i < tail.len() implies (#[trigger] tail[i]).0 == ranges.skip(
        1,
    )[i] by {
        assert(tail[i] == list[i + 1]);
    }
    assert(replaces(tail, ranges.skip(1)));
    x
}

/// The ranges follow one another within the lines.
pub open spec fn follow(ranges: Seq<LineRange>, total: nat) -> bool {
    crate::merge_laws::in_bounds(ranges, total) && crate::merge_laws::ascending(ranges)
}

proof fn lemma_gap(ranges: Seq<LineRange>, total: nat, i: int)
    requires
        follow(ranges, total),
        0 <= i <= ranges.len(),
    ensures
        0 <= gap_start(ranges, i) <= gap_end(ranges, total as int, i) <= total,
        i < ranges.len() ==> gap_start(ranges, i) < ranges[i].start <= ranges[i].end <= total,
{
    if i > 0 {
        assert(1 <= ranges[i - 1].start <= ranges[i - 1].end <= total);
    }
    if i < ranges.len() {
        assert(1 <= ranges[i].start <= ranges[i].end <= total);
        if i > 0 {
            assert(ranges[i - 1].end < ranges[i].start);
        }
    }
}

/// A tail stands where its first lines stand and the next tail stands behind them.
proof fn lemma_tail(
    lines: Seq<Seq<char>>,
    ranges: Seq<LineRange>,
    new_lines: Seq<Seq<char>>,
    i: int,
    pos: int,
    last: Option<usize>,
)
    requires
        follow(ranges, lines.len()),
        0 <= i < ranges.len(),
        0 <= pos <= new_lines.len(),
        is_last_tail(lines, ranges, new_lines, i + 1, last),
    ensures
        tail_at(lines, ranges, new_lines, i, pos) <==> (last matches Some(p) && {
            let from = gap_start(ranges, i);
            let to = gap_end(ranges, lines.len() as int, i);
            stands_at(lines, from, to, new_lines, pos) && pos + (to - from) <= p
        }),
{
    lemma_gap(ranges, lines.len(), i);
    let from = gap_start(ranges, i);
    let to = gap_end(ranges, lines.len() as int, i);
    let gap = to - from;
    let these = ranges.skip(i);
    let here = new_lines.skip(pos);
    assert(these[0] == ranges[i]);
    assert(these.skip(1) == ranges.skip(i + 1));
    assert(gap_start(ranges, i + 1) == ranges[i].end);
    if tail_at(lines, ranges, new_lines, i, pos) {
        let x = lemma_changed_first_only(lines, from, these, here);
        assert(here.skip(gap + x) == new_lines.skip(pos + gap + x));
        assert(tail_at(lines, ranges, new_lines, i + 1, pos + gap + x));
        assert(here.subrange(0, gap) == new_lines.subrange(pos, pos + gap));
        assert(last is Some);
    }
    if let Some(p) = last {
        if stands_at(lines, from, to, new_lines, pos) && pos + gap <= p {
            let x = p - pos - gap;
            assert(here.skip(gap + x) == new_lines.skip(p as int));
            assert(here.subrange(0, gap) == new_lines.subrange(pos, pos + gap));
            lemma_changed_first(lines, from, these, here, x);
        }
    }
}

/// Whether some lines stand at a position.
fn lines_at(lines: &Vec<String>, from: usize, to: usize, new_lines: &Vec<String>, pos: usize) -> (r:
    bool)
    requires
        from <= to <= lines@.len(),
        pos <= new_lines@.len(),
    ensures
        r == stands_at(
            crate::text::views(lines@),
            from as int,
            to as int,
            crate::text::views(new_lines@),
            pos as int,
        ),
{
    let ghost old = crate::text::views(lines@);
    let ghost new = crate::text::views(new_lines@);
    if to - from > new_lines.len() - pos {
        return false;
    }
    let n = to - from;
    let mut k: usize = 0;
    while k < n
        invariant
            k <= n,
            n == to - from,
            from <= to <= lines@.len(),
            pos + n <= new_lines.len(),
            new_lines.len() == new_lines@.len(),
            old == crate::text::views(lines@),
            new == crate::text::views(new_lines@),
            forall|j: int| 0 <= j < k ==> (#[trigger] old[from + j]) == new[pos + j],
        decreases n - k,
    {
        if lines[from + k] != new_lines[pos + k] {
            proof {
                let a = new.subrange(pos as int, pos + n);
                let b = old.subrange(from as int, to as int);
                assert(a[k as int] == new[pos + k]);
                assert(b[k as int] == old[from + k]);
            }
            return false;
        }
        k += 1;
    }
    proof {
        let a = new.subrange(pos as int, pos + n);
        let b = old.subrange(from as int, to as int);
        assert forall|j: int| 0 <= j < n implies a[j] == b[j] by {
            assert(old[from + j] == new[pos + j]);
        }
        assert(a == b);
    }
    true
}

/// The last position where the tail stands that starts before range `i`, if the next one
/// last stands at `last`.
fn last_tail(
    lines: &Vec<String>,
    ranges: &Vec<LineRange>,
    new_lines: &Vec<String>,
    i: usize,
    last: Option<usize>,
) -> (r: Option<usize>)
    requires
        follow(ranges@, lines@.len()),
        i < ranges@.len(),
        is_last_tail(
            crate::text::views(lines@),
            ranges@,
            crate::text::views(new_lines@),
            i + 1,
            last,
        ),
    ensures
        is_last_tail(
            crate::text::views(lines@),
            ranges@,
            crate::text::views(new_lines@),
            i as int,
            r,
        ),
{
    let ghost old = crate::text::views(lines@);
    let ghost new = crate::text::views(new_lines@);
    proof {
        lemma_gap(ranges@, lines@.len(), i as int);
        assert forall|q: int| 0 <= q <= new.len() implies (#[trigger] tail_at(
            old,
            ranges@,
            new,
            i as int,
            q,
        ) <==> (last matches Some(p) && {
            let from = gap_start(ranges@, i as int);
            let to = gap_end(ranges@, old.len() as int, i as int);
            stands_at(old, from, to, new, q) && q + (to - from) <= p
        })) by {
            lemma_tail(old, ranges@, new, i as int, q, last);
        }
    }
    let limit = match last {
        Some(p) => p,
        None => {
            return None;
        },
    };
    let from = if i == 0 {
        0
    } else {
        ranges[i - 1].end
    };
    let to = ranges[i].start - 1;
    let gap = to - from;
    if gap > limit {
        return None;
    }
    let mut pos: usize = limit - gap;
    loop
        invariant
            last == Some(limit),
            limit <= new.len(),
            old == crate::text::views(lines@),
            new == crate::text::views(new_lines@),
            from == gap_start(ranges@, i as int),
            to == gap_end(ranges@, old.len() as int, i as int),
            gap == to - from,
            from <= to <= lines@.len(),
            pos + gap <= limit,
            forall|q: int|
                0 <= q <= new.len() ==> (#[trigger] tail_at(old, ranges@, new, i as int, q) <==> (
                stands_at(old, from as int, to as int, new, q) && q + gap <= limit)),
            forall|q: int|
                pos < q <= new.len() ==> !#[trigger] tail_at(old, ranges@, new, i as int, q),
        decreases pos,
    {
        if lines_at(lines, from, to, new_lines, pos) {
            assert(tail_at(old, ranges@, new, i as int, pos as int));
            return Some(pos);
        }
        assert(!tail_at(old, ranges@, new, i as int, pos as int));
        if pos == 0 {
            return None;
        }
        pos -= 1;
    }
}

/// Whether only lines of the ranges changed, which follow one another.
fn only_ranges_changed(
    lines: &Vec<String>,
    ranges: &Vec<LineRange>,
    new_lines: &Vec<String>,
) -> (r: bool)
    requires
        follow(ranges@, lines@.len()),
    ensures
        r == changed_only(
            crate::text::views(lines@),
            0,
            ranges@,
            crate::text::views(new_lines@),
        ),
{
    let ghost old = crate::text::views(lines@);
    let ghost new = crate::text::views(new_lines@);
    let k = ranges.len();
    proof {
        lemma_gap(ranges@, lines@.len(), k as int);
        assert(ranges@.skip(k as int) == Seq::<LineRange>::empty());
        assert(ranges@.skip(0) == ranges@);
        assert(new.skip(0) == new);
    }
    let from = if k == 0 {
        0
    } else {
        ranges[k - 1].end
    };
    let behind = lines.len() - from;
    let mut last: Option<usize> = if behind <= new_lines.len() && lines_at(
        lines,
        from,
        lines.len(),
        new_lines,
        new_lines.len() - behind,
    ) {
        Some(new_lines.len() - behind)
    } else {
        None
    };
    proof {
        assert forall|q: int| 0 <= q <= new.len() implies (#[trigger] tail_at(
            old,
            ranges@,
            new,
            k as int,
            q,
        ) <==> last == Some(q as usize)) by {
            lemma_changed_none(old, from as int, new.skip(q));
            assert(old.subrange(from as int, old.len() as int) == old.skip(from as int));
            assert(new.subrange(q, new.len() as int) == new.skip(q));
            if new.skip(q) == old.skip(from as int) {
                assert(new.skip(q).len() == new.len() - q);
                assert(old.skip(from as int).len() == old.len() - from);
                assert(new.len() - q == behind);
            }
        }
    }
    let mut i: usize = k;
    while i > 1
        invariant
            i <= k == ranges@.len(),
            k > 0 ==> i > 0,
            old == crate::text::views(lines@),
            new == crate::text::views(new_lines@),
            follow(ranges@, lines@.len()),
            is_last_tail(old, ranges@, new, i as int, last),
        decreases i,
    {
        i -= 1;
        last = last_tail(lines, ranges, new_lines, i, last);
    }
    if k == 0 {
        assert(tail_at(old, ranges@, new, 0, 0) <==> last == Some(0usize));
        return match last {
            Some(p) => p == 0,
            None => false,
        };
    }
    proof {
        lemma_gap(ranges@, lines@.len(), 0);
        lemma_tail(old, ranges@, new, 0, 0, last);
    }
    match last {
        Some(p) => ranges[0].start - 1 <= p && lines_at(
            lines,
            0,
            ranges[0].start - 1,
            new_lines,
            0,
        ),
        None => false,
    }
}

/// Whether the ranges follow one another within so many lines.
fn ranges_follow(ranges: &Vec<LineRange>, total: usize) -> (r: bool)
    ensures
        r == follow(ranges@, total as nat),
{
    let mut i: usize = 0;
    while i < ranges.len()
        invariant
            i <= ranges@.len(),
            follow(ranges@.take(i as int), total as nat),
        decreases ranges@.len() - i,
    {
        let range = ranges[i];
        let bad = range.start == 0 || range.start > range.end || range.end > total || (i > 0
            && ranges[i - 1].end >= range.start);
        if bad {
            assert(!follow(ranges@, total as nat)) by {
                if follow(ranges@, total as nat) {
                    assert(1 <= ranges@[i as int].start <= ranges@[i as int].end <= total);
                    if i > 0 {
                        assert(ranges@[i - 1].end < ranges@[i as int].start);
                    }
                }
            }
            return false;
        }
        proof {
            let before = ranges@.take(i as int);
            let after = ranges@.take(i + 1);
            assert forall|j: int| 0 <= j < after.len() implies 1 <= (#[trigger] after[j]).start
                <= after[j].end <= total by {
                if j < i {
                    assert(after[j] == before[j]);
                }
            }
            assert forall|j: int, l: int| 0 <= j < l < after.len() implies (
            #[trigger] after[j]).end < (#[trigger] after[l]).start by {
                assert(after[j] == before[j]);
                if l < i {
                    assert(after[l] == before[l]);
                } else if j < i - 1 {
                    assert(before[j].end < before[i - 1].start);
                    assert(before[i - 1].start <= before[i - 1].end);
                }
            }
        }
        i += 1;
    }
    assert(ranges@.take(ranges@.len() as int) == ranges@);
    true
}

/// Whether the lines changed only inside the ranges.
pub fn changes_inside(
    lines: &Vec<String>,
    ranges: &[LineRange],
    new_lines: &Vec<String>,
) -> (r: bool)
    ensures
        r == changed_inside(
            crate::text::views(lines@),
            ranges@,
            crate::text::views(new_lines@),
        ),
{
    let sorted = sort_by_start(ranges);
    ranges_follow(&sorted, lines.len()) && only_ranges_changed(lines, &sorted, new_lines)
}

} // verus!
