//! What trimming, words and paragraphs are, in terms of white space and newlines alone.
use vstd::prelude::*;

verus! {

/// A text of nothing but white space.
pub open spec fn all_white(text: Seq<char>) -> bool {
    forall|i: int| 0 <= i < text.len() ==> crate::words::is_white_space(#[trigger] text[i])
}

/// What trimming takes off the start of a text is white space, and what it leaves does not
/// begin with any.
pub proof fn trimming_the_start(text: Seq<char>)
    ensures
        ({
            let kept = crate::words::trim_start(text);
            let n = text.len() - kept.len();
            &&& n >= 0
            &&& text == text.take(n) + kept
            &&& all_white(text.take(n))
            &&& kept.len() > 0 ==> !crate::words::is_white_space(kept[0])
        }),
    decreases text.len(),
{
    let kept = crate::words::trim_start(text);
    let n = text.len() - kept.len();
    if text.len() > 0 && crate::words::is_white_space(text[0]) {
        let rest = text.skip(1);
        trimming_the_start(rest);
        assert(text == seq![text[0]] + rest);
        assert(text.take(n) == seq![text[0]] + rest.take(n - 1));
        assert forall|i: int| 0 <= i < n implies crate::words::is_white_space(
            #[trigger] text.take(n)[i],
        ) by {
            if i > 0 {
                assert(text.take(n)[i] == rest.take(n - 1)[i - 1]);
            }
        }
    } else {
        assert(text.take(0) + text == text);
    }
}

/// What trimming takes off the end of a text is white space, and what it leaves does not end
/// with any.
pub proof fn trimming_the_end(text: Seq<char>)
    ensures
        ({
            let kept = crate::words::trim_end(text);
            &&& kept.len() <= text.len()
            &&& text == kept + text.skip(kept.len() as int)
            &&& all_white(text.skip(kept.len() as int))
            &&& kept.len() > 0 ==> !crate::words::is_white_space(kept[kept.len() - 1])
        }),
    decreases text.len(),
{
    let kept = crate::words::trim_end(text);
    if text.len() > 0 && crate::words::is_white_space(text.last()) {
        let rest = text.drop_last();
        trimming_the_end(rest);
        let n = kept.len() as int;
        assert(text.take(n) == rest.take(n));
        assert(rest.take(n) == kept);
        assert(text == kept + text.skip(n));
        assert forall|i: int| 0 <= i < text.skip(n).len() implies crate::words::is_white_space(
            #[trigger] text.skip(n)[i],
        ) by {
            if i < rest.skip(n).len() {
                assert(text.skip(n)[i] == rest.skip(n)[i]);
            } else {
                assert(text.skip(n)[i] == text.last());
            }
        }
    } else {
        assert(text + text.skip(text.len() as int) == text);
    }
}

/// What trimming takes off the two ends of a text.
pub open spec fn trimmed_off(text: Seq<char>) -> (Seq<char>, Seq<char>) {
    let n = text.len() - crate::words::trim_start(text).len();
    (text.take(n), text.skip(n + crate::words::trim(text).len()))
}

/// A text is what trimming leaves of it, with white space before and behind that. What is
/// left neither begins nor ends with white space.
pub proof fn trimming_takes_white_space_off_both_ends(text: Seq<char>)
    ensures
        ({
            let (before, after) = trimmed_off(text);
            let kept = crate::words::trim(text);
            &&& text == before + kept + after
            &&& all_white(before)
            &&& all_white(after)
            &&& kept.len() > 0 ==> !crate::words::is_white_space(kept[0])
            &&& kept.len() > 0 ==> !crate::words::is_white_space(kept[kept.len() - 1])
        }),
{
    let (before, after) = trimmed_off(text);
    let started = crate::words::trim_start(text);
    let kept = crate::words::trim(text);
    trimming_the_start(text);
    trimming_the_end(started);
    assert(after == started.skip(kept.len() as int));
    assert(text == before + kept + after);
    if kept.len() > 0 {
        assert(kept[0] == started[0]);
    }
}

/// Gaps and words in turn, with a gap at either end.
pub open spec fn interleaved(gaps: Seq<Seq<char>>, words: Seq<Seq<char>>) -> Seq<char>
    decreases words.len(),
{
    if words.len() == 0 {
        gaps[0]
    } else {
        gaps[0] + words[0] + interleaved(gaps.skip(1), words.skip(1))
    }
}

/// White space that sets the words apart.
pub open spec fn are_gaps(gaps: Seq<Seq<char>>, words: Seq<Seq<char>>) -> bool {
    &&& gaps.len() == words.len() + 1
    &&& forall|i: int| 0 <= i < gaps.len() ==> all_white(#[trigger] gaps[i])
    &&& forall|i: int| 0 < i < words.len() ==> (#[trigger] gaps[i]).len() > 0
}

/// A text of one character or more, none of which is white space.
pub open spec fn is_word(text: Seq<char>) -> bool {
    &&& text.len() > 0
    &&& forall|i: int| 0 <= i < text.len() ==> !crate::words::is_white_space(#[trigger] text[i])
}

/// The words of a text are its stretches without white space: the text is these words with
/// white space between them, and perhaps before and behind them.
pub proof fn words_lie_between_white_space(text: Seq<char>) -> (gaps: Seq<Seq<char>>)
    ensures
        forall|i: int|
            0 <= i < crate::words::words(text).len() ==> is_word(
                #[trigger] crate::words::words(text)[i],
            ),
        are_gaps(gaps, crate::words::words(text)),
        text == interleaved(gaps, crate::words::words(text)),
    decreases text.len(),
{
    let words = crate::words::words(text);
    let started = crate::words::trim_start(text);
    trimming_the_start(text);
    crate::words::lemma_trim_start(text);
    crate::words::lemma_word_len(started);
    let n = text.len() - started.len();
    let gap = text.take(n);
    if started.len() == 0 {
        assert(text == gap);
        assert(seq![gap][0] == gap);
        seq![gap]
    } else {
        let k = crate::words::word_len(started);
        lemma_word_len_parts(started);
        let word = started.take(k);
        let rest = started.skip(k);
        let more = words_lie_between_white_space(rest);
        let others = crate::words::words(rest);
        let gaps = seq![gap] + more;
        assert(words == seq![word] + others);
        assert(gaps.skip(1) == more);
        assert(words.skip(1) == others);
        assert(started == word + rest);
        assert forall|i: int| 0 <= i < gaps.len() implies all_white(#[trigger] gaps[i]) by {
            if i > 0 {
                assert(gaps[i] == more[i - 1]);
            }
        }
        assert forall|i: int| 0 < i < words.len() implies (#[trigger] gaps[i]).len() > 0 by {
            assert(gaps[i] == more[i - 1]);
            if i == 1 {
                assert(others.len() > 0);
                assert(rest.len() > 0);
                assert(crate::words::is_white_space(rest[0]));
                if more[0].len() == 0 {
                    assert(rest == more[0] + others[0] + interleaved(more.skip(1), others.skip(1)));
                    assert(rest[0] == others[0][0]);
                }
            }
        }
        assert forall|i: int| 0 <= i < words.len() implies is_word(#[trigger] words[i]) by {
            if i > 0 {
                assert(words[i] == others[i - 1]);
            } else {
                assert forall|j: int| 0 <= j < word.len() implies !crate::words::is_white_space(
                    #[trigger] word[j],
                ) by {
                    assert(word[j] == started[j]);
                }
            }
        }
        assert(text == gap + started);
        assert(text == gap + word + rest);
        gaps
    }
}

proof fn lemma_word_len_parts(s: Seq<char>)
    ensures
        0 <= crate::words::word_len(s) <= s.len(),
        forall|i: int|
            0 <= i < crate::words::word_len(s) ==> !crate::words::is_white_space(#[trigger] s[i]),
        crate::words::word_len(s) < s.len() ==> crate::words::is_white_space(
            s[crate::words::word_len(s)],
        ),
    decreases s.len(),
{
    if s.len() > 0 && !crate::words::is_white_space(s[0]) {
        let rest = s.skip(1);
        lemma_word_len_parts(rest);
        assert forall|i: int| 0 <= i < crate::words::word_len(s) implies
            !crate::words::is_white_space(#[trigger] s[i]) by {
            if i > 0 {
                assert(s[i] == rest[i - 1]);
            }
        }
    }
}

/// The text has two newlines in a row at this place.
pub open spec fn blank_at(text: Seq<char>, i: int) -> bool {
    0 <= i < text.len() - 1 && text[i] == '\n' && text[i + 1] == '\n'
}

/// Texts with two newlines between each and the next.
pub open spec fn set_apart(texts: Seq<Seq<char>>) -> Seq<char>
    decreases texts.len(),
{
    if texts.len() == 0 {
        seq![]
    } else if texts.len() == 1 {
        texts[0]
    } else {
        texts[0] + seq!['\n', '\n'] + set_apart(texts.skip(1))
    }
}

/// The paragraphs of a text are its parts between two newlines in a row. None has two
/// newlines in a row itself, and none but the last ends with a newline.
pub proof fn paragraphs_lie_between_blank_lines(text: Seq<char>)
    ensures
        ({
            let parts = crate::words::paragraphs(text);
            &&& parts.len() > 0
            &&& text == set_apart(parts)
            &&& forall|p: int, i: int|
                0 <= p < parts.len() ==> !#[trigger] blank_at(parts[p], i)
            &&& forall|p: int|
                0 <= p < parts.len() - 1 && (#[trigger] parts[p]).len() > 0
                    ==> parts[p][parts[p].len() - 1] != '\n'
        }),
    decreases text.len(),
{
    let parts = crate::words::paragraphs(text);
    crate::words::lemma_find_blank(text);
    lemma_find_blank_first(text);
    let k = crate::words::find_blank(text);
    if k >= text.len() {
        assert(parts == seq![text]);
        assert forall|p: int, i: int| 0 <= p < parts.len() implies !#[trigger] blank_at(
            parts[p],
            i,
        ) by {
            assert(!blank_at(text, i));
        }
    } else {
        let rest = text.skip(k + 2);
        paragraphs_lie_between_blank_lines(rest);
        let others = crate::words::paragraphs(rest);
        let first = text.take(k);
        assert(parts == seq![first] + others);
        assert(parts.skip(1) == others);
        assert(blank_at(text, k));
        assert(text == first + seq!['\n', '\n'] + rest);
        assert forall|p: int, i: int| 0 <= p < parts.len() implies !#[trigger] blank_at(
            parts[p],
            i,
        ) by {
            if p == 0 {
                assert(!blank_at(text, i) || i >= k);
                if blank_at(first, i) {
                    assert(text[i] == first[i] && text[i + 1] == first[i + 1]);
                }
            } else {
                assert(!blank_at(others[p - 1], i));
            }
        }
        assert forall|p: int| 0 <= p < parts.len() - 1 && (#[trigger] parts[p]).len()
            > 0 implies parts[p][parts[p].len() - 1] != '\n' by {
            if p == 0 {
                assert(!blank_at(text, k - 1));
            } else {
                assert(parts[p] == others[p - 1]);
            }
        }
    }
}

proof fn lemma_find_blank_first(s: Seq<char>)
    ensures
        crate::words::find_blank(s) < s.len() ==> blank_at(s, crate::words::find_blank(s)),
        forall|i: int| i < crate::words::find_blank(s) ==> !#[trigger] blank_at(s, i),
    decreases s.len(),
{
    if s.len() >= 2 && !(s[0] == '\n' && s[1] == '\n') {
        let rest = s.skip(1);
        lemma_find_blank_first(rest);
        assert forall|i: int| i < crate::words::find_blank(s) implies !#[trigger] blank_at(s, i) by {
            assert(!blank_at(rest, i - 1));
        }
        if crate::words::find_blank(s) < s.len() {
            assert(blank_at(rest, crate::words::find_blank(rest)));
        }
    }
}

} // verus!
