//! What lines, joined texts and decimal numbers are, in terms of characters alone.
use vstd::prelude::*;

verus! {

/// The texts one behind the other.
pub open spec fn concatenated(texts: Seq<Seq<char>>) -> Seq<char>
    decreases texts.len(),
{
    if texts.len() == 0 {
        seq![]
    } else {
        texts[0] + concatenated(texts.skip(1))
    }
}

/// Each line with its end.
pub open spec fn with_ends(lines: Seq<Seq<char>>, ends: Seq<Seq<char>>) -> Seq<Seq<char>> {
    Seq::new(lines.len(), |i: int| lines[i] + ends[i])
}

/// What ends a line: a newline, perhaps with a carriage return before it, or the end of the
/// text. Of a carriage return before the newline the line has nothing.
pub open spec fn ends_line(line: Seq<char>, end: Seq<char>) -> bool {
    ||| end == seq!['\n'] && (line.len() > 0 ==> line[line.len() - 1] != '\r')
    ||| end == seq!['\r', '\n']
    ||| end.len() == 0 && line.len() > 0
}

/// A text is its lines, each with its end, one behind the other. No line has a newline in
/// it, and only the last may do without an end.
pub proof fn texts_consist_of_their_lines(text: Seq<char>) -> (ends: Seq<Seq<char>>)
    ensures
        ends.len() == crate::text::lines(text).len(),
        text == concatenated(with_ends(crate::text::lines(text), ends)),
        forall|i: int|
            0 <= i < ends.len() ==> ends_line(#[trigger] crate::text::lines(text)[i], ends[i]),
        forall|i: int| 0 <= i < ends.len() - 1 ==> (#[trigger] ends[i]).len() > 0,
        forall|i: int|
            0 <= i < ends.len() ==> !(#[trigger] crate::text::lines(text)[i]).contains('\n'),
    decreases text.len(),
{
    let lines = crate::text::lines(text);
    crate::text::lemma_lines_have_no_newline(text);
    if text.len() == 0 {
        let ends = Seq::<Seq<char>>::empty();
        assert(text == concatenated(with_ends(lines, ends)));
        ends
    } else {
        crate::text::lemma_find(text, '\n');
        let k = crate::text::find(text, '\n');
        if k >= text.len() {
            let none = Seq::<char>::empty();
            let ends = seq![none];
            let all = with_ends(lines, ends);
            assert(all[0] == text + none);
            assert(all.skip(1) == Seq::<Seq<char>>::empty());
            assert(concatenated(all.skip(1)) == none);
            assert(text == concatenated(all));
            ends
        } else {
            let rest = text.skip(k + 1);
            let more = texts_consist_of_their_lines(rest);
            let others = crate::text::lines(rest);
            let line = text.take(k);
            let end = if line.len() > 0 && line.last() == '\r' {
                seq!['\r', '\n']
            } else {
                seq!['\n']
            };
            let ends = seq![end] + more;
            assert(lines == seq![crate::text::without_cr(line)] + others);
            assert(lines[0] + end == text.take(k + 1));
            let all = with_ends(lines, ends);
            assert(all.skip(1) == with_ends(others, more));
            assert(text == text.take(k + 1) + rest);
            assert(text == concatenated(all));
            lemma_ends_line(text, k);
            assert forall|i: int| 0 <= i < ends.len() implies ends_line(
                #[trigger] lines[i],
                ends[i],
            ) by {
                if i > 0 {
                    assert(lines[i] == others[i - 1] && ends[i] == more[i - 1]);
                }
            }
            assert forall|i: int| 0 <= i < ends.len() - 1 implies (#[trigger] ends[i]).len()
                > 0 by {
                if i > 0 {
                    assert(ends[i] == more[i - 1]);
                }
            }
            ends
        }
    }
}

proof fn lemma_ends_line(text: Seq<char>, k: int)
    requires
        0 <= k < text.len(),
        text[k] == '\n',
    ensures
        ({
            let line = text.take(k);
            let end = if line.len() > 0 && line.last() == '\r' {
                seq!['\r', '\n']
            } else {
                seq!['\n']
            };
            ends_line(crate::text::without_cr(line), end)
        }),
{
}

/// A text is its lines with their ends, one behind the other. Each but the last ends with a
/// newline, and none has a newline before its end.
pub proof fn texts_consist_of_their_raw_lines(text: Seq<char>)
    ensures
        ({
            let raw = crate::text::raw_lines(text);
            &&& text == concatenated(raw)
            &&& forall|i: int| 0 <= i < raw.len() ==> (#[trigger] raw[i]).len() > 0
            &&& forall|i: int|
                0 <= i < raw.len() - 1 ==> (#[trigger] raw[i])[raw[i].len() - 1] == '\n'
            &&& forall|i: int, j: int|
                0 <= i < raw.len() && 0 <= j < raw[i].len() - 1 ==> #[trigger] raw[i][j] != '\n'
        }),
    decreases text.len(),
{
    let raw = crate::text::raw_lines(text);
    if text.len() > 0 {
        crate::text::lemma_find(text, '\n');
        let k = crate::text::find(text, '\n');
        if k >= text.len() {
            assert(raw == seq![text]);
            assert(raw.skip(1) == Seq::<Seq<char>>::empty());
            assert(concatenated(raw.skip(1)) == Seq::<char>::empty());
            assert(concatenated(raw) == text);
        } else {
            let rest = text.skip(k + 1);
            texts_consist_of_their_raw_lines(rest);
            let others = crate::text::raw_lines(rest);
            assert(raw == seq![text.take(k + 1)] + others);
            assert(raw.skip(1) == others);
            assert(text == text.take(k + 1) + rest);
            assert forall|i: int| 0 <= i < raw.len() implies (#[trigger] raw[i]).len() > 0 by {
                if i > 0 {
                    assert(raw[i] == others[i - 1]);
                }
            }
            assert forall|i: int| 0 <= i < raw.len() - 1 implies (#[trigger] raw[i])[raw[i].len()
                - 1] == '\n' by {
                if i > 0 {
                    assert(raw[i] == others[i - 1]);
                }
            }
            assert forall|i: int, j: int|
                0 <= i < raw.len() && 0 <= j < raw[i].len() - 1 implies #[trigger] raw[i][j]
                != '\n' by {
                if i > 0 {
                    assert(raw[i] == others[i - 1]);
                    assert(others[i - 1][j] != '\n');
                } else {
                    assert(raw[0][j] == text[j]);
                }
            }
        }
    }
}

/// What is joined is the texts with the separator between them: none is as empty as no
/// text, one is itself, and two lists of texts can be joined apart.
pub proof fn joined_texts_have_separators_between(
    one: Seq<Seq<char>>,
    other: Seq<Seq<char>>,
    sep: Seq<char>,
    text: Seq<char>,
)
    requires
        one.len() > 0,
        other.len() > 0,
    ensures
        crate::text::join(seq![], sep) == Seq::<char>::empty(),
        crate::text::join(seq![text], sep) == text,
        crate::text::join(one + other, sep) == crate::text::join(one, sep) + sep
            + crate::text::join(other, sep),
    decreases one.len(),
{
    let all = one + other;
    if one.len() == 1 {
        assert(all.skip(1) == other);
        assert(all[0] == one[0]);
    } else {
        let rest = one.skip(1);
        joined_texts_have_separators_between(rest, other, sep, text);
        assert(all.skip(1) == rest + other);
        assert(all[0] == one[0]);
        assert(crate::text::join(all, sep) == one[0] + sep + (crate::text::join(rest, sep) + sep
            + crate::text::join(other, sep)));
        assert(crate::text::join(one, sep) == one[0] + sep + crate::text::join(rest, sep));
    }
    assert(crate::text::join(all, sep) == crate::text::join(one, sep) + sep + crate::text::join(
        other,
        sep,
    ));
}

/// The number that digits stand for.
pub open spec fn number(digits: Seq<char>) -> int
    decreases digits.len(),
{
    if digits.len() == 0 {
        0
    } else {
        10 * number(digits.drop_last()) + (digits.last() as int - '0' as int)
    }
}

/// In decimal notation a number is made of digits that stand for it, the first of which is
/// a zero for the number zero only.
pub proof fn decimals_stand_for_their_number(n: nat)
    ensures
        number(crate::text::decimal(n)) == n,
        forall|i: int|
            0 <= i < crate::text::decimal(n).len() ==> '0' <= #[trigger] crate::text::decimal(n)[i]
                && crate::text::decimal(n)[i] <= '9',
        crate::text::decimal(n).len() > 0,
        crate::text::decimal(n)[0] == '0' ==> n == 0 && crate::text::decimal(n).len() == 1,
    decreases n,
{
    let digits = crate::text::decimal(n);
    let last = if n < 10 { n } else { n % 10 };
    assert(0 <= last < 10);
    assert(digits.last() == crate::text::digit(last));
    assert(digits.last() as int == 48 + last);
    if n < 10 {
        assert(digits.drop_last() == Seq::<char>::empty());
        assert(number(digits.drop_last()) == 0);
    } else {
        decimals_stand_for_their_number(n / 10);
        assert(digits.drop_last() == crate::text::decimal(n / 10));
        assert forall|i: int| 0 <= i < digits.len() implies '0' <= #[trigger] digits[i]
            && digits[i] <= '9' by {
            if i < digits.len() - 1 {
                assert(digits[i] == crate::text::decimal(n / 10)[i]);
            }
        }
    }
}

/// The contents of strings are theirs, one by one.
pub proof fn strings_are_viewed_one_by_one(list: Seq<String>)
    ensures
        crate::text::views(list).len() == list.len(),
        forall|i: int| 0 <= i < list.len() ==> #[trigger] crate::text::views(list)[i] == list[i]@,
{
}

/// The bytes of a text are those of its encoding, and the bytes of two texts add up.
pub proof fn bytes_are_those_of_the_encoding(one: Seq<char>, other: Seq<char>)
    ensures
        crate::text::byte_len(one) == vstd::utf8::encode_utf8(one).len(),
        crate::text::byte_len(one + other) == crate::text::byte_len(one) + crate::text::byte_len(
            other,
        ),
{
    crate::text::lemma_byte_len_add(one, other);
}

} // verus!
