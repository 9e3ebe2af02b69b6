//! White space, and what stands between it: trimming, words and paragraphs.
use crate::text::{chars_of, string_of};
use vstd::prelude::*;

verus! {

/// The characters with the Unicode property `White_Space`.
pub open spec fn is_white_space(c: char) -> bool {
    let n = c as u32;
    ||| 0x9 <= n <= 0xd
    ||| n == 0x20
    ||| n == 0x85
    ||| n == 0xa0
    ||| n == 0x1680
    ||| 0x2000 <= n <= 0x200a
    ||| n == 0x2028
    ||| n == 0x2029
    ||| n == 0x202f
    ||| n == 0x205f
    ||| n == 0x3000
}

/// Whether a character has the Unicode property `White_Space`.
pub fn white_space(c: char) -> (r: bool)
    ensures
        r == is_white_space(c),
{
    let n: u32 = c as u32;
    (0x9 <= n && n <= 0xd) || n == 0x20 || n == 0x85 || n == 0xa0 || n == 0x1680 || (0x2000 <= n
        && n <= 0x200a) || n == 0x2028 || n == 0x2029 || n == 0x202f || n == 0x205f || n == 0x3000
}

/// A text without the white space at its start.
pub open spec fn trim_start(s: Seq<char>) -> Seq<char>
    decreases s.len(),
{
    if s.len() > 0 && is_white_space(s[0]) {
        trim_start(s.skip(1))
    } else {
        s
    }
}

/// A text without the white space at its end.
pub open spec fn trim_end(s: Seq<char>) -> Seq<char>
    decreases s.len(),
{
    if s.len() > 0 && is_white_space(s.last()) {
        trim_end(s.drop_last())
    } else {
        s
    }
}

/// A text without the white space at either end.
pub open spec fn trim(s: Seq<char>) -> Seq<char> {
    trim_end(trim_start(s))
}

/// Where the first character that is not white space stands.
pub fn skip_white_space(chars: &Vec<char>, from: usize) -> (r: usize)
    requires
        from <= chars@.len(),
    ensures
        from <= r <= chars@.len(),
        trim_start(chars@.skip(from as int)) == chars@.skip(r as int),
        r < chars@.len() ==> !is_white_space(chars@[r as int]),
        forall|j: int| from <= j < r ==> is_white_space(chars@[j]),
{
    let mut r: usize = from;
    while r < chars.len() && white_space(chars[r])
        invariant
            from <= r <= chars@.len(),
            trim_start(chars@.skip(from as int)) == trim_start(chars@.skip(r as int)),
            forall|j: int| from <= j < r ==> is_white_space(chars@[j]),
        decreases chars@.len() - r,
    {
        assert(chars@.skip(r as int).skip(1) == chars@.skip(r + 1));
        r += 1;
    }
    r
}

/// The end of the text before the white space at its end.
fn strip_white_space(chars: &Vec<char>, from: usize) -> (r: usize)
    requires
        from <= chars@.len(),
    ensures
        from <= r <= chars@.len(),
        trim_end(chars@.skip(from as int)) == chars@.subrange(from as int, r as int),
{
    let mut r: usize = chars.len();
    assert(chars@.skip(from as int) == chars@.subrange(from as int, r as int));
    while r > from && white_space(chars[r - 1])
        invariant
            from <= r <= chars@.len(),
            trim_end(chars@.skip(from as int)) == trim_end(
                chars@.subrange(from as int, r as int),
            ),
        decreases r,
    {
        assert(chars@.subrange(from as int, r as int).drop_last() == chars@.subrange(
            from as int,
            r - 1,
        ));
        r -= 1;
    }
    r
}

/// A string without the white space at either end.
pub fn trim_of(s: &str) -> (r: String)
    ensures
        r@ == trim(s@),
{
    let chars = chars_of(s);
    let from = skip_white_space(&chars, 0);
    let to = strip_white_space(&chars, from);
    assert(s@.skip(0) == s@);
    string_of(&chars, from, to)
}

/// A string without the white space at its end.
pub fn trim_end_of(s: &str) -> (r: String)
    ensures
        r@ == trim_end(s@),
{
    let chars = chars_of(s);
    let to = strip_white_space(&chars, 0);
    assert(s@.skip(0) == s@);
    string_of(&chars, 0, to)
}

/// The number of characters before the first white space.
pub open spec fn word_len(s: Seq<char>) -> int
    decreases s.len(),
{
    if s.len() == 0 || is_white_space(s[0]) {
        0
    } else {
        1 + word_len(s.skip(1))
    }
}

/// `word_len` is the only position with its two properties.
pub proof fn lemma_word_len_is(s: Seq<char>, k: int)
    requires
        0 <= k <= s.len(),
        forall|i: int| 0 <= i < k ==> !is_white_space(#[trigger] s[i]),
        k < s.len() ==> is_white_space(s[k]),
    ensures
        word_len(s) == k,
    decreases s.len(),
{
    if k > 0 {
        let rest = s.skip(1);
        assert forall|i: int| 0 <= i < k - 1 implies !is_white_space(#[trigger] rest[i]) by {
            assert(rest[i] == s[i + 1]);
        }
        lemma_word_len_is(rest, k - 1);
    }
}

pub proof fn lemma_word_len(s: Seq<char>)
    ensures
        0 <= word_len(s) <= s.len(),
        s.len() > 0 && !is_white_space(s[0]) ==> word_len(s) > 0,
    decreases s.len(),
{
    if s.len() > 0 && !is_white_space(s[0]) {
        lemma_word_len(s.skip(1));
    }
}

pub proof fn lemma_trim_start(s: Seq<char>)
    ensures
        trim_start(s).len() <= s.len(),
        trim_start(s) == s.skip(s.len() - trim_start(s).len()),
        trim_start(s).len() > 0 ==> !is_white_space(trim_start(s)[0]),
    decreases s.len(),
{
    if s.len() > 0 && is_white_space(s[0]) {
        lemma_trim_start(s.skip(1));
    }
}

/// The words of a text: what stands between white space.
pub open spec fn words(s: Seq<char>) -> Seq<Seq<char>>
    decreases s.len(),
{
    let t = trim_start(s);
    proof {
        lemma_trim_start(s);
        lemma_word_len(t);
    }
    if t.len() == 0 {
        seq![]
    } else {
        seq![t.take(word_len(t))] + words(t.skip(word_len(t)))
    }
}

/// The words of a string.
pub fn words_of(s: &str) -> (r: Vec<String>)
    ensures
        crate::text::views(r@) == words(s@),
{
    let chars = chars_of(s);
    let mut r: Vec<String> = Vec::new();
    let mut from = skip_white_space(&chars, 0);
    proof {
        assert(s@.skip(0) == s@);
        lemma_words_trimmed(s@);
        assert(crate::text::views(r@) + words(s@.skip(from as int)) == words(s@));
    }
    while from < chars.len()
        invariant
            chars@ == s@,
            from <= chars@.len(),
            from < chars@.len() ==> !is_white_space(chars@[from as int]),
            crate::text::views(r@) + words(s@.skip(from as int)) == words(s@),
        decreases chars@.len() - from,
    {
        let mut to: usize = from + 1;
        while to < chars.len() && !white_space(chars[to])
            invariant
                from < to <= chars@.len(),
                forall|j: int| from <= j < to ==> !is_white_space(#[trigger] chars@[j]),
            decreases chars@.len() - to,
        {
            to += 1;
        }
        let word = string_of(&chars, from, to);
        let next = skip_white_space(&chars, to);
        proof {
            let rest = s@.skip(from as int);
            assert forall|i: int| 0 <= i < to - from implies !is_white_space(
                #[trigger] rest[i],
            ) by {
                assert(rest[i] == chars@[from + i]);
            }
            lemma_word_len_is(rest, to - from);
            assert(!is_white_space(rest[0]));
            assert(trim_start(rest) == rest);
            assert(rest.take(to - from) == word@);
            assert(rest.skip(to - from) == s@.skip(to as int));
            lemma_words_trimmed(s@.skip(to as int));
            let done = crate::text::views(r@);
            assert(crate::text::views(r@.push(word)) == done.push(word@));
            assert(done + (seq![word@] + words(s@.skip(next as int))) == done.push(word@) + words(
                s@.skip(next as int),
            ));
        }
        r.push(word);
        from = next;
    }
    proof {
        assert(trim_start(s@.skip(from as int)).len() == 0);
        assert(crate::text::views(r@) + words(s@.skip(from as int)) == crate::text::views(r@));
    }
    r
}

/// White space at the start does not matter to the words.
pub proof fn lemma_words_trimmed(s: Seq<char>)
    ensures
        words(trim_start(s)) == words(s),
{
    lemma_trim_start(s);
    assert(trim_start(trim_start(s)) == trim_start(s));
}

/// The position of the first empty line break, two newlines in a row, or the length of
/// the text where there is none.
pub open spec fn find_blank(s: Seq<char>) -> int
    decreases s.len(),
{
    if s.len() < 2 {
        s.len() as int
    } else if s[0] == '\n' && s[1] == '\n' {
        0
    } else {
        1 + find_blank(s.skip(1))
    }
}

pub proof fn lemma_find_blank(s: Seq<char>)
    ensures
        0 <= find_blank(s) <= s.len(),
        find_blank(s) < s.len() ==> find_blank(s) + 2 <= s.len(),
    decreases s.len(),
{
    if s.len() >= 2 && !(s[0] == '\n' && s[1] == '\n') {
        lemma_find_blank(s.skip(1));
    }
}

/// `find_blank` is the only position with its two properties.
proof fn lemma_find_blank_is(s: Seq<char>, k: int)
    requires
        0 <= k <= s.len(),
        forall|i: int| 0 <= i < k && i + 1 < s.len() ==> !(#[trigger] s[i] == '\n' && s[i + 1] == '\n'),
        k < s.len() ==> k + 1 < s.len() && s[k] == '\n' && s[k + 1] == '\n',
    ensures
        find_blank(s) == k,
    decreases s.len(),
{
    if s.len() >= 2 && k > 0 {
        let rest = s.skip(1);
        assert forall|i: int| 0 <= i < k - 1 && i + 1 < rest.len() implies !(#[trigger] rest[i]
            == '\n' && rest[i + 1] == '\n') by {
            assert(rest[i] == s[i + 1]);
        }
        assert(!(s[0] == '\n' && s[1] == '\n'));
        lemma_find_blank_is(rest, k - 1);
    }
}

/// The parts of a text between double newlines.
pub open spec fn paragraphs(s: Seq<char>) -> Seq<Seq<char>>
    decreases s.len(),
{
    proof {
        lemma_find_blank(s);
    }
    let k = find_blank(s);
    if k >= s.len() {
        seq![s]
    } else {
        seq![s.take(k)] + paragraphs(s.skip(k + 2))
    }
}

/// The parts of a string between double newlines.
pub fn paragraphs_of(s: &str) -> (r: Vec<String>)
    ensures
        crate::text::views(r@) == paragraphs(s@),
{
    let chars = chars_of(s);
    let mut r: Vec<String> = Vec::new();
    let mut begin: usize = 0;
    let mut i: usize = 0;
    proof {
        assert(s@.skip(0) == s@);
        assert(crate::text::views(r@) + paragraphs(s@) == paragraphs(s@));
    }
    while i < chars.len()
        invariant
            chars@ == s@,
            begin <= i <= chars@.len(),
            forall|j: int|
                begin <= j < i && j + 1 < chars@.len() ==> !(#[trigger] chars@[j] == '\n'
                    && chars@[j + 1] == '\n'),
            crate::text::views(r@) + paragraphs(s@.skip(begin as int)) == paragraphs(s@),
        decreases chars@.len() - i,
    {
        if i + 1 < chars.len() && chars[i] == '\n' && chars[i + 1] == '\n' {
            let part = string_of(&chars, begin, i);
            proof {
                let rest = s@.skip(begin as int);
                assert forall|j: int| 0 <= j < i - begin && j + 1 < rest.len() implies !(
                #[trigger] rest[j] == '\n' && rest[j + 1] == '\n') by {
                    assert(rest[j] == chars@[begin + j]);
                }
                lemma_find_blank_is(rest, i - begin);
                assert(rest.take(i - begin) == part@);
                assert(rest.skip(i - begin + 2) == s@.skip(i + 2));
                let done = crate::text::views(r@);
                assert(crate::text::views(r@.push(part)) == done.push(part@));
                assert(done + (seq![part@] + paragraphs(s@.skip(i + 2))) == done.push(part@)
                    + paragraphs(s@.skip(i + 2)));
            }
            r.push(part);
            begin = i + 2;
            i = i + 2;
        } else {
            i += 1;
        }
    }
    let part = string_of(&chars, begin, chars.len());
    proof {
        let rest = s@.skip(begin as int);
        assert forall|j: int| 0 <= j < rest.len() && j + 1 < rest.len() implies !(#[trigger] rest[j]
            == '\n' && rest[j + 1] == '\n') by {
            assert(rest[j] == chars@[begin + j]);
        }
        lemma_find_blank_is(rest, rest.len() as int);
        assert(part@ == rest);
        assert(crate::text::views(r@.push(part)) == crate::text::views(r@) + seq![rest]);
    }
    r.push(part);
    r
}

} // verus!
