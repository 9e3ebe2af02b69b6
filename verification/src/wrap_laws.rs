//! What a wrapped text is made of: which words share a line, and what stands before each.
use vstd::prelude::*;

verus! {

/// How many bytes a text takes.
pub open spec fn bytes(text: Seq<char>) -> int {
    vstd::utf8::encode_utf8(text).len() as int
}

/// The words from one position up to another, with a space between each and the next.
pub open spec fn words_between(words: Seq<Seq<char>>, from: int, to: int) -> Seq<char> {
    crate::text::join(words.subrange(from, to), seq![' '])
}

/// The lines hold all words in order, with cuts at these positions. No line is empty, each
/// fits into `room` bytes unless it is one word only, and the word that begins the next line
/// would not have fitted.
pub open spec fn fills(
    lines: Seq<Seq<char>>,
    cuts: Seq<int>,
    words: Seq<Seq<char>>,
    from: int,
    room: int,
) -> bool {
    &&& cuts.len() == lines.len() + 1
    &&& cuts[0] == from
    &&& cuts[lines.len() as int] == words.len()
    &&& forall|i: int|
        0 <= i < lines.len() ==> {
            &&& 0 <= cuts[i] < cuts[i + 1] <= words.len()
            &&& #[trigger] lines[i] == words_between(words, cuts[i], cuts[i + 1])
            &&& bytes(lines[i]) <= room || cuts[i + 1] == cuts[i] + 1
            &&& i < lines.len() - 1 ==> bytes(lines[i]) + 1 + bytes(words[cuts[i + 1]]) > room
        }
}

proof fn lemma_longer_line(words: Seq<Seq<char>>, from: int, to: int)
    requires
        0 <= from < to < words.len(),
    ensures
        words_between(words, from, to) + seq![' '] + words[to] == words_between(
            words,
            from,
            to + 1,
        ),
        bytes(words_between(words, from, to + 1)) == bytes(words_between(words, from, to)) + 1
            + bytes(words[to]),
{
    let line = words_between(words, from, to);
    assert(words.subrange(from, to + 1) == words.subrange(from, to).push(words[to]));
    crate::text::lemma_join_push(words.subrange(from, to), seq![' '], words[to]);
    crate::text::lemma_byte_len_add(line, seq![' ']);
    crate::text::lemma_byte_len_add(line + seq![' '], words[to]);
    crate::wrap::lemma_byte_len_space();
}

proof fn lemma_fills(words: Seq<Seq<char>>, from: int, to: int, room: int) -> (cuts: Seq<int>)
    requires
        0 <= from < to <= words.len(),
        forall|i: int| 0 <= i < words.len() ==> (#[trigger] words[i]).len() > 0,
        bytes(words_between(words, from, to)) <= room || to == from + 1,
    ensures
        fills(
            crate::wrap::wrap_onto(
                words_between(words, from, to),
                words.skip(to),
                room,
            ),
            cuts,
            words,
            from,
            room,
        ),
    decreases words.len() - to,
{
    let line = words_between(words, from, to);
    let rest = words.skip(to);
    let lines = crate::wrap::wrap_onto(line, rest, room);
    lemma_line_is_not_empty(words, from, to);
    if to == words.len() {
        assert(lines == seq![line]);
        let cuts = seq![from, to];
        assert(fills(lines, cuts, words, from, room));
        cuts
    } else {
        assert(rest[0] == words[to]);
        assert(rest.skip(1) == words.skip(to + 1));
        if bytes(line) + bytes(words[to]) + 1 > room {
            assert(words.subrange(to, to + 1) == seq![words[to]]);
            assert(words_between(words, to, to + 1) == words[to]);
            let more = lemma_fills(words, to, to + 1, room);
            let others = crate::wrap::wrap_onto(words[to], words.skip(to + 1), room);
            assert(lines == seq![line] + others);
            let cuts = seq![from] + more;
            assert forall|i: int| 0 <= i < lines.len() implies {
                &&& 0 <= cuts[i] < cuts[i + 1] <= words.len()
                &&& #[trigger] lines[i] == words_between(words, cuts[i], cuts[i + 1])
                &&& bytes(lines[i]) <= room || cuts[i + 1] == cuts[i] + 1
                &&& i < lines.len() - 1 ==> bytes(lines[i]) + 1 + bytes(words[cuts[i + 1]]) > room
            } by {
                if i > 0 {
                    assert(lines[i] == others[i - 1]);
                    assert(cuts[i] == more[i - 1] && cuts[i + 1] == more[i]);
                } else {
                    assert(cuts[1] == more[0]);
                }
            }
            assert(cuts[lines.len() as int] == more[others.len() as int]);
            cuts
        } else {
            lemma_longer_line(words, from, to);
            lemma_fills(words, from, to + 1, room)
        }
    }
}

proof fn lemma_line_is_not_empty(words: Seq<Seq<char>>, from: int, to: int)
    requires
        0 <= from < to <= words.len(),
        forall|i: int| 0 <= i < words.len() ==> (#[trigger] words[i]).len() > 0,
    ensures
        words_between(words, from, to).len() > 0,
{
    let part = words.subrange(from, to);
    assert(part[0] == words[from]);
}

/// The words of a paragraph are put on lines one after the other, each on the line of the
/// word before it if there is room.
pub proof fn lines_are_filled_one_by_one(words: Seq<Seq<char>>, room: int) -> (cuts: Seq<int>)
    requires
        forall|i: int| 0 <= i < words.len() ==> (#[trigger] words[i]).len() > 0,
    ensures
        fills(crate::wrap::wrapped(words, room), cuts, words, 0, room),
{
    if words.len() == 0 {
        seq![0int]
    } else {
        assert(words.subrange(0, 1) == seq![words[0]]);
        assert(words_between(words, 0, 1) == words[0]);
        lemma_fills(words, 0, 1, room)
    }
}

/// Each line behind the prefix, and with a newline behind it.
pub open spec fn rows(lines: Seq<Seq<char>>, prefix: Seq<char>) -> Seq<char>
    decreases lines.len(),
{
    if lines.len() == 0 {
        seq![]
    } else {
        prefix + lines[0] + seq!['\n'] + rows(lines.skip(1), prefix)
    }
}

/// The rows of each paragraph, and between two paragraphs a row of the prefix alone.
pub open spec fn stacked(paragraphs: Seq<Seq<Seq<char>>>, prefix: Seq<char>) -> Seq<char>
    decreases paragraphs.len(),
{
    if paragraphs.len() == 0 {
        seq![]
    } else if paragraphs.len() == 1 {
        rows(paragraphs[0], prefix)
    } else {
        rows(paragraphs[0], prefix) + prefix + seq!['\n'] + stacked(paragraphs.skip(1), prefix)
    }
}

proof fn lemma_rows_push(lines: Seq<Seq<char>>, prefix: Seq<char>, last: Seq<char>)
    ensures
        rows(lines.push(last), prefix) == rows(lines, prefix) + prefix + last + seq!['\n'],
    decreases lines.len(),
{
    let all = lines.push(last);
    if lines.len() == 0 {
        assert(all.skip(1) == lines);
        assert(rows(all, prefix) == prefix + last + seq!['\n'] + rows(lines, prefix));
        assert(rows(lines, prefix) == Seq::<char>::empty());
        assert(rows(all, prefix) == rows(lines, prefix) + prefix + last + seq!['\n']);
    } else {
        lemma_rows_push(lines.skip(1), prefix, last);
        assert(all.skip(1) == lines.skip(1).push(last));
        assert(all[0] == lines[0]);
        assert(rows(all, prefix) == prefix + lines[0] + seq!['\n'] + (rows(lines.skip(1), prefix)
            + prefix + last + seq!['\n']));
        assert(rows(all, prefix) == rows(lines, prefix) + prefix + last + seq!['\n']);
    }
}

proof fn lemma_rows(lines: Seq<Seq<char>>, prefix: Seq<char>)
    ensures
        crate::wrap::prefixed(lines, prefix) == rows(lines, prefix),
    decreases lines.len(),
{
    if lines.len() > 0 {
        lemma_rows(lines.drop_last(), prefix);
        lemma_rows_push(lines.drop_last(), prefix, lines.last());
        assert(lines.drop_last().push(lines.last()) == lines);
    }
}

proof fn lemma_stacked(paragraphs: Seq<Seq<Seq<char>>>, prefix: Seq<char>, texts: Seq<Seq<char>>)
    requires
        texts.len() == paragraphs.len(),
        forall|i: int| 0 <= i < texts.len() ==> #[trigger] texts[i] == rows(paragraphs[i], prefix),
    ensures
        crate::text::join(texts, prefix.push('\n')) == stacked(paragraphs, prefix),
    decreases texts.len(),
{
    if texts.len() > 1 {
        let rest = texts.skip(1);
        assert forall|i: int| 0 <= i < rest.len() implies #[trigger] rest[i] == rows(
            paragraphs.skip(1)[i],
            prefix,
        ) by {
            assert(rest[i] == texts[i + 1]);
        }
        lemma_stacked(paragraphs.skip(1), prefix, rest);
        assert(texts[0] == rows(paragraphs[0], prefix));
        assert(prefix.push('\n') == prefix + seq!['\n']);
        assert(crate::text::join(texts, prefix.push('\n')) == rows(paragraphs[0], prefix) + (prefix
            + seq!['\n']) + stacked(paragraphs.skip(1), prefix));
        assert(crate::text::join(texts, prefix.push('\n')) == stacked(paragraphs, prefix));
    } else if texts.len() == 1 {
        assert(texts[0] == rows(paragraphs[0], prefix));
    }
}

/// The lines of one paragraph hold its words, filled one by one into the room that the
/// prefix leaves.
pub open spec fn holds_paragraph(
    lines: Seq<Seq<char>>,
    paragraph: Seq<char>,
    prefix: Seq<char>,
    width: int,
) -> bool {
    exists|cuts: Seq<int>| #[trigger]
        fills(
            lines,
            cuts,
            crate::words::words(paragraph),
            0,
            crate::context_laws::larger(0, width - bytes(prefix)),
        )
}

/// A text is wrapped paragraph by paragraph, and the prefix stands before every line and
/// between any two paragraphs. White space at the end of all this is left out, and nothing
/// else is.
pub proof fn wrapped_texts_have_all_paragraphs(
    text: Seq<char>,
    prefix: Seq<char>,
    width: int,
) -> (paragraphs: Seq<Seq<Seq<char>>>)
    ensures
        ({
            let given = crate::words::paragraphs(crate::words::trim(text));
            let shown = crate::wrap::wrapped_text(text, prefix, width);
            let whole = stacked(paragraphs, prefix);
            &&& paragraphs.len() == given.len()
            &&& forall|p: int|
                0 <= p < given.len() ==> holds_paragraph(
                    #[trigger] paragraphs[p],
                    given[p],
                    prefix,
                    width,
                )
            &&& shown.len() <= whole.len()
            &&& shown == whole.take(shown.len() as int)
            &&& forall|i: int|
                shown.len() <= i < whole.len() ==> crate::words::is_white_space(#[trigger] whole[i])
            &&& shown.len() > 0 ==> !crate::words::is_white_space(shown[shown.len() - 1])
        }),
{
    let given = crate::words::paragraphs(crate::words::trim(text));
    let room = crate::context_laws::larger(0, width - bytes(prefix));
    assert(room == crate::wrap::text_width(prefix, width));
    let paragraphs = Seq::new(
        given.len(),
        |p: int| crate::wrap::wrapped(crate::words::words(given[p]), room),
    );
    assert forall|p: int| 0 <= p < given.len() implies holds_paragraph(
        #[trigger] paragraphs[p],
        given[p],
        prefix,
        width,
    ) by {
        crate::wrap::words_are_not_empty(given[p]);
        let cuts = lines_are_filled_one_by_one(crate::words::words(given[p]), room);
        assert(fills(paragraphs[p], cuts, crate::words::words(given[p]), 0, room));
    }
    let texts = crate::wrap::blocks(given, prefix, width);
    assert forall|p: int| 0 <= p < texts.len() implies #[trigger] texts[p] == rows(
        paragraphs[p],
        prefix,
    ) by {
        lemma_rows(paragraphs[p], prefix);
    }
    lemma_stacked(paragraphs, prefix, texts);
    let whole = stacked(paragraphs, prefix);
    let shown = crate::wrap::wrapped_text(text, prefix, width);
    crate::word_laws::trimming_the_end(whole);
    assert(whole.take(shown.len() as int) == shown);
    assert forall|i: int| shown.len() <= i < whole.len() implies crate::words::is_white_space(
        #[trigger] whole[i],
    ) by {
        assert(whole[i] == whole.skip(shown.len() as int)[i - shown.len()]);
    }
    paragraphs
}

} // verus!
