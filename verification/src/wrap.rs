//! Wrapping of running text behind a prefix.
use crate::text::{byte_len_of, join_strings};
use crate::words::{paragraphs_of, trim_end_of, trim_of, words_of};
use vstd::prelude::*;

verus! {

/// The words put on lines one after the other, where `line` is the line begun.
///
/// A word goes on the line begun unless the line would then have more than `width` bytes.
pub open spec fn wrap_onto(line: Seq<char>, words: Seq<Seq<char>>, width: int) -> Seq<Seq<char>>
    decreases words.len(),
{
    if words.len() == 0 {
        if line.len() == 0 {
            seq![]
        } else {
            seq![line]
        }
    } else if line.len() == 0 {
        wrap_onto(words[0], words.skip(1), width)
    } else if crate::text::byte_len(line) + crate::text::byte_len(words[0]) + 1 > width {
        seq![line] + wrap_onto(words[0], words.skip(1), width)
    } else {
        wrap_onto(line + seq![' '] + words[0], words.skip(1), width)
    }
}

/// The words on lines of at most `width` bytes, as far as single words allow it.
pub open spec fn wrapped(words: Seq<Seq<char>>, width: int) -> Seq<Seq<char>> {
    wrap_onto(seq![], words, width)
}

/// Each line behind the prefix and ended by a newline.
pub open spec fn prefixed(lines: Seq<Seq<char>>, prefix: Seq<char>) -> Seq<char>
    decreases lines.len(),
{
    if lines.len() == 0 {
        seq![]
    } else {
        prefixed(lines.drop_last(), prefix) + prefix + lines.last() + seq!['\n']
    }
}

/// The width that is left for the text behind a prefix.
pub open spec fn text_width(prefix: Seq<char>, width: int) -> int {
    if width > crate::text::byte_len(prefix) {
        width - crate::text::byte_len(prefix)
    } else {
        0
    }
}

/// A paragraph wrapped behind the prefix.
pub open spec fn paragraph_block(paragraph: Seq<char>, prefix: Seq<char>, width: int) -> Seq<char> {
    prefixed(wrapped(crate::words::words(paragraph), text_width(prefix, width)), prefix)
}

/// The blocks of all paragraphs.
pub open spec fn blocks(paragraphs: Seq<Seq<char>>, prefix: Seq<char>, width: int) -> Seq<Seq<char>> {
    Seq::new(paragraphs.len(), |i: int| paragraph_block(paragraphs[i], prefix, width))
}

/// A text wrapped behind a prefix: its paragraphs with an empty prefixed line between
/// them, and no white space at the end.
pub open spec fn wrapped_text(text: Seq<char>, prefix: Seq<char>, width: int) -> Seq<char> {
    crate::words::trim_end(
        crate::text::join(
            blocks(crate::words::paragraphs(crate::words::trim(text)), prefix, width),
            prefix.push('\n'),
        ),
    )
}

proof fn lemma_prefixed_push(lines: Seq<Seq<char>>, prefix: Seq<char>, line: Seq<char>)
    ensures
        prefixed(lines.push(line), prefix) == prefixed(lines, prefix) + prefix + line + seq!['\n'],
{
    assert(lines.push(line).drop_last() == lines);
}

/// A paragraph wrapped behind the prefix.
fn wrap_paragraph(paragraph: &str, prefix: &str, wrap_width: usize) -> (r: String)
    ensures
        r@ == prefixed(wrapped(crate::words::words(paragraph@), wrap_width as int), prefix@),
{
    let words = words_of(paragraph);
    let ghost all = crate::text::views(words@);
    let mut r = String::new();
    let mut line = String::new();
    let mut i: usize = 0;
    let ghost mut done: Seq<Seq<char>> = seq![];
    proof {
        assert(all.skip(0) == all);
        assert(done + wrap_onto(line@, all, wrap_width as int) == wrapped(all, wrap_width as int));
    }
    while i < words.len()
        invariant
            i <= words@.len(),
            all == crate::text::views(words@),
            r@ == prefixed(done, prefix@),
            done + wrap_onto(line@, all.skip(i as int), wrap_width as int) == wrapped(
                all,
                wrap_width as int,
            ),
        decreases words@.len() - i,
    {
        let word = words[i].as_str();
        let ghost rest = all.skip(i as int);
        proof {
            assert(rest[0] == word@);
            assert(rest.skip(1) == all.skip(i + 1));
        }
        let line_len = byte_len_of(line.as_str());
        let word_len = byte_len_of(word);
        let ghost was = line@;
        let empty = line.as_str().is_empty();
        // `line_len + word_len + 1 > wrap_width`, without computing the sum.
        if !empty && (line_len >= wrap_width || word_len > wrap_width - line_len - 1) {
            r.append(prefix);
            r.append(line.as_str());
            r.push('\n');
            proof {
                lemma_prefixed_push(done, prefix@, was);
                assert(prefixed(done, prefix@) + prefix@ + was + seq!['\n'] == (prefixed(
                    done,
                    prefix@,
                ) + prefix@ + was).push('\n'));
                assert(done + (seq![was] + wrap_onto(word@, rest.skip(1), wrap_width as int))
                    == done.push(was) + wrap_onto(word@, rest.skip(1), wrap_width as int));
                done = done.push(was);
            }
            line = String::new();
        } else if !empty {
            line.push(' ');
            assert(was.push(' ') + word@ == was + seq![' '] + word@);
        }
        line.append(word);
        assert(Seq::<char>::empty() + word@ == word@);
        i += 1;
    }
    assert(all.skip(all.len() as int) == Seq::<Seq<char>>::empty());
    if !line.as_str().is_empty() {
        r.append(prefix);
        r.append(line.as_str());
        r.push('\n');
        proof {
            lemma_prefixed_push(done, prefix@, line@);
            assert(done.push(line@) == done + seq![line@]);
            assert(r@ == prefixed(done, prefix@) + prefix@ + line@ + seq!['\n']);
        }
    } else {
        assert(done + Seq::<Seq<char>>::empty() == done);
    }
    r
}

/// Wraps a text to `width` bytes a line, with `prefix` in front of every line and an
/// empty line between paragraphs.
pub fn wrap_and_prefix(text: &str, prefix: &str, width: usize) -> (r: String)
    ensures
        r@ == wrapped_text(text@, prefix@, width as int),
{
    let mut parts: Vec<String> = Vec::new();
    let wrap_width = width.saturating_sub(byte_len_of(prefix));
    let trimmed = trim_of(text);
    let list = paragraphs_of(trimmed.as_str());
    let mut i: usize = 0;
    let ghost all = blocks(crate::text::views(list@), prefix@, width as int);
    while i < list.len()
        invariant
            i <= list@.len(),
            wrap_width == text_width(prefix@, width as int),
            all == blocks(crate::text::views(list@), prefix@, width as int),
            crate::text::views(parts@) == all.take(i as int),
        decreases list@.len() - i,
    {
        let part = wrap_paragraph(list[i].as_str(), prefix, wrap_width);
        assert(all.take(i + 1) == all.take(i as int).push(part@));
        assert(crate::text::views(parts@.push(part)) == crate::text::views(parts@).push(part@));
        parts.push(part);
        i += 1;
    }
    assert(all.take(all.len() as int) == all);
    let mut gap = prefix.to_owned();
    gap.push('\n');
    let joined = join_strings(&parts, gap.as_str());
    trim_end_of(joined.as_str())
}

/// None of the words is empty.
pub open spec fn no_empty_word(words: Seq<Seq<char>>) -> bool {
    forall|i: int| 0 <= i < words.len() ==> (#[trigger] words[i]).len() > 0
}

proof fn lemma_rest_not_empty(words: Seq<Seq<char>>)
    requires
        no_empty_word(words),
        words.len() > 0,
    ensures
        no_empty_word(words.skip(1)),
{
    let rest = words.skip(1);
    assert forall|i: int| 0 <= i < rest.len() implies (#[trigger] rest[i]).len() > 0 by {
        assert(rest[i] == words[i + 1]);
    }
}

/// No word that is read from a text is empty.
pub proof fn words_are_not_empty(text: Seq<char>)
    ensures
        no_empty_word(crate::words::words(text)),
    decreases text.len(),
{
    let t = crate::words::trim_start(text);
    crate::words::lemma_trim_start(text);
    crate::words::lemma_word_len(t);
    if t.len() > 0 {
        let rest = t.skip(crate::words::word_len(t));
        words_are_not_empty(rest);
        let all = crate::words::words(text);
        assert forall|i: int| 0 <= i < all.len() implies (#[trigger] all[i]).len() > 0 by {
            if i > 0 {
                assert(all[i] == crate::words::words(rest)[i - 1]);
            }
        }
    }
}

proof fn lemma_wrap_onto_joined(line: Seq<char>, words: Seq<Seq<char>>, width: int)
    requires
        no_empty_word(words),
        line.len() > 0,
    ensures
        wrap_onto(line, words, width).len() > 0,
        crate::text::join(wrap_onto(line, words, width), seq![' ']) == crate::text::join(
            seq![line] + words,
            seq![' '],
        ),
    decreases words.len(),
{
    let sp = seq![' '];
    let all = seq![line] + words;
    assert(all.skip(1) == words);
    if words.len() == 0 {
        assert(all == seq![line]);
    } else {
        lemma_rest_not_empty(words);
        let word = words[0];
        let rest = words.skip(1);
        assert(seq![word] + rest == words);
        if crate::text::byte_len(line) + crate::text::byte_len(word) + 1 > width {
            lemma_wrap_onto_joined(word, rest, width);
            let tail = wrap_onto(word, rest, width);
            let lines = seq![line] + tail;
            assert(lines.skip(1) == tail);
            assert(crate::text::join(tail, sp) == crate::text::join(words, sp));
            assert(wrap_onto(line, words, width) == lines);
            assert(crate::text::join(lines, sp) == line + sp + crate::text::join(tail, sp));
            assert(crate::text::join(all, sp) == line + sp + crate::text::join(words, sp));
        } else {
            let longer = line + sp + word;
            lemma_wrap_onto_joined(longer, rest, width);
            let merged = seq![longer] + rest;
            assert(merged.skip(1) == rest);
            if rest.len() == 0 {
                assert(merged == seq![longer]);
                assert(crate::text::join(words, sp) == word);
                assert(crate::text::join(all, sp) == line + sp + word);
            } else {
                assert(crate::text::join(words, sp) == word + sp + crate::text::join(rest, sp));
                assert(crate::text::join(all, sp) == line + sp + crate::text::join(words, sp));
                assert(crate::text::join(merged, sp) == longer + sp + crate::text::join(rest, sp));
                assert(line + sp + (word + sp + crate::text::join(rest, sp)) == longer + sp
                    + crate::text::join(rest, sp));
            }
        }
    }
}

/// Wrapping loses no word and keeps their order: the lines, joined by spaces, are the
/// words, joined by spaces.
pub proof fn wrapping_keeps_the_words(words: Seq<Seq<char>>, width: int)
    requires
        no_empty_word(words),
    ensures
        crate::text::join(wrapped(words, width), seq![' ']) == crate::text::join(words, seq![' ']),
{
    if words.len() > 0 {
        lemma_rest_not_empty(words);
        lemma_wrap_onto_joined(words[0], words.skip(1), width);
        assert(seq![words[0]] + words.skip(1) == words);
    }
}

proof fn lemma_wrap_onto_fits(line: Seq<char>, words: Seq<Seq<char>>, all: Seq<Seq<char>>, width: int)
    requires
        line.len() == 0 || crate::text::byte_len(line) <= width || all.contains(line),
        forall|i: int| 0 <= i < words.len() ==> all.contains(#[trigger] words[i]),
    ensures
        forall|i: int|
            0 <= i < wrap_onto(line, words, width).len() ==> crate::text::byte_len(
                #[trigger] wrap_onto(line, words, width)[i],
            ) <= width || all.contains(wrap_onto(line, words, width)[i]),
    decreases words.len(),
{
    if words.len() > 0 {
        let rest = words.skip(1);
        assert forall|i: int| 0 <= i < rest.len() implies all.contains(#[trigger] rest[i]) by {
            assert(rest[i] == words[i + 1]);
        }
        assert(all.contains(words[0]));
        if line.len() == 0 {
            lemma_wrap_onto_fits(words[0], rest, all, width);
            assert(wrap_onto(line, words, width) == wrap_onto(words[0], rest, width));
        } else if crate::text::byte_len(line) + crate::text::byte_len(words[0]) + 1 > width {
            lemma_wrap_onto_fits(words[0], rest, all, width);
            let lines = wrap_onto(line, words, width);
            assert forall|i: int| 0 <= i < lines.len() implies crate::text::byte_len(
                #[trigger] lines[i],
            ) <= width || all.contains(lines[i]) by {
                if i > 0 {
                    assert(lines[i] == wrap_onto(words[0], rest, width)[i - 1]);
                }
            }
        } else {
            crate::text::lemma_byte_len_add(line + seq![' '], words[0]);
            crate::text::lemma_byte_len_add(line, seq![' ']);
            lemma_byte_len_space();
            let longer = line + seq![' '] + words[0];
            assert(crate::text::byte_len(longer) <= width);
            lemma_wrap_onto_fits(longer, rest, all, width);
            assert(wrap_onto(line, words, width) == wrap_onto(longer, rest, width));
        }
    } else if line.len() > 0 {
        assert(wrap_onto(line, words, width) == seq![line]);
    }
}

pub proof fn lemma_byte_len_space()
    ensures
        crate::text::byte_len(seq![' ']) == 1,
{
    assert(seq![' '].drop_first() == Seq::<char>::empty());
    assert(vstd::utf8::encode_utf8(Seq::<char>::empty()).len() == 0);
    assert(vstd::utf8::encode_scalar(' ' as u32).len() == 1);
}

/// A wrapped line is no longer than the width, unless it is a single word.
pub proof fn wrapped_lines_fit(words: Seq<Seq<char>>, width: int)
    ensures
        forall|i: int|
            0 <= i < wrapped(words, width).len() ==> crate::text::byte_len(
                #[trigger] wrapped(words, width)[i],
            ) <= width || words.contains(wrapped(words, width)[i]),
{
    assert forall|i: int| 0 <= i < words.len() implies words.contains(#[trigger] words[i]) by {}
    lemma_wrap_onto_fits(seq![], words, words, width);
}

/// `line` is `word`, alone or followed by a space and more.
pub open spec fn starts_with_word(line: Seq<char>, word: Seq<char>) -> bool {
    &&& word.len() <= line.len()
    &&& line.take(word.len() as int) == word
    &&& line.len() > word.len() ==> line[word.len() as int] == ' '
}

/// Each line but the first begins with a word that would not have fitted on the line
/// before.
pub open spec fn breaks_needed(lines: Seq<Seq<char>>, words: Seq<Seq<char>>, width: int) -> bool {
    forall|i: int|
        0 <= i < lines.len() - 1 ==> exists|k: int|
            0 <= k < words.len() && starts_with_word(lines[i + 1], #[trigger] words[k])
                && crate::text::byte_len(#[trigger] lines[i]) + 1 + crate::text::byte_len(words[k])
                > width
}

proof fn lemma_wrap_onto_first(line: Seq<char>, first: Seq<char>, words: Seq<Seq<char>>, width: int)
    requires
        line.len() > 0,
        starts_with_word(line, first),
        no_empty_word(words),
    ensures
        wrap_onto(line, words, width).len() > 0,
        starts_with_word(wrap_onto(line, words, width)[0], first),
    decreases words.len(),
{
    if words.len() > 0 {
        lemma_rest_not_empty(words);
        if crate::text::byte_len(line) + crate::text::byte_len(words[0]) + 1 > width {
        } else {
            let longer = line + seq![' '] + words[0];
            assert(longer.take(first.len() as int) == line.take(first.len() as int));
            lemma_wrap_onto_first(longer, first, words.skip(1), width);
        }
    }
}

proof fn lemma_wrap_onto_breaks(line: Seq<char>, words: Seq<Seq<char>>, all: Seq<Seq<char>>, width: int)
    requires
        line.len() > 0,
        no_empty_word(words),
        forall|i: int| 0 <= i < words.len() ==> all.contains(#[trigger] words[i]),
    ensures
        breaks_needed(wrap_onto(line, words, width), all, width),
    decreases words.len(),
{
    if words.len() > 0 {
        lemma_rest_not_empty(words);
        let word = words[0];
        let rest = words.skip(1);
        assert forall|i: int| 0 <= i < rest.len() implies all.contains(#[trigger] rest[i]) by {
            assert(rest[i] == words[i + 1]);
        }
        assert(all.contains(words[0]));
        if crate::text::byte_len(line) + crate::text::byte_len(word) + 1 > width {
            lemma_wrap_onto_breaks(word, rest, all, width);
            assert(word.take(word.len() as int) == word);
            lemma_wrap_onto_first(word, word, rest, width);
            let tail = wrap_onto(word, rest, width);
            let lines = wrap_onto(line, words, width);
            let w = choose|k: int| 0 <= k < all.len() && all[k] == word;
            assert forall|i: int| 0 <= i < lines.len() - 1 implies exists|k: int|
                0 <= k < all.len() && starts_with_word(lines[i + 1], #[trigger] all[k])
                    && crate::text::byte_len(#[trigger] lines[i]) + 1 + crate::text::byte_len(
                    all[k],
                ) > width by {
                if i == 0 {
                    assert(lines[1] == tail[0]);
                    assert(starts_with_word(lines[1], all[w]));
                } else {
                    assert(lines[i] == tail[i - 1] && lines[i + 1] == tail[i]);
                    let k = choose|k: int|
                        0 <= k < all.len() && starts_with_word(tail[i - 1 + 1], #[trigger] all[k])
                            && crate::text::byte_len(tail[i - 1]) + 1 + crate::text::byte_len(
                            all[k],
                        ) > width;
                    assert(starts_with_word(lines[i + 1], all[k]));
                }
            }
        } else {
            lemma_wrap_onto_breaks(line + seq![' '] + word, rest, all, width);
        }
    }
}

/// A line is only broken where it has to be: the word that starts the next line would
/// not have fitted.
pub proof fn lines_break_only_where_needed(words: Seq<Seq<char>>, width: int)
    requires
        no_empty_word(words),
    ensures
        breaks_needed(wrapped(words, width), words, width),
{
    if words.len() > 0 {
        lemma_rest_not_empty(words);
        let rest = words.skip(1);
        assert forall|i: int| 0 <= i < rest.len() implies words.contains(#[trigger] rest[i]) by {
            assert(rest[i] == words[i + 1]);
        }
        lemma_wrap_onto_breaks(words[0], rest, words, width);
    }
}

} // verus!
