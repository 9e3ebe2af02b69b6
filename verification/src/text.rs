//! Text as sequences of characters: lines, joining, numbers and byte counts.
use vstd::prelude::*;

verus! {

/// Appends one character.
///
/// `String::push` is documented to append the given `char` to the end of the string.
pub assume_specification[ String::push ](s: &mut String, c: char)
    ensures
        final(s)@ == old(s)@.push(c),
;

/// The characters of each string of a list.
pub open spec fn views(list: Seq<String>) -> Seq<Seq<char>> {
    Seq::new(list.len(), |i: int| list[i]@)
}

/// The position of the first `c` in `s`, or the length of `s` where there is none.
pub open spec fn find(s: Seq<char>, c: char) -> int
    decreases s.len(),
{
    if s.len() == 0 || s[0] == c {
        0
    } else {
        1 + find(s.skip(1), c)
    }
}

/// A line without the carriage return that may stand at its end.
pub open spec fn without_cr(line: Seq<char>) -> Seq<char> {
    if line.len() > 0 && line.last() == '\r' {
        line.drop_last()
    } else {
        line
    }
}

/// The lines of `s`. A line ends at `\n` or `\r\n`, which is not part of it; the last
/// line may do without one.
pub open spec fn lines(s: Seq<char>) -> Seq<Seq<char>>
    decreases s.len(),
{
    if s.len() == 0 {
        seq![]
    } else {
        proof {
            lemma_find(s, '\n');
        }
        let k = find(s, '\n');
        if k >= s.len() {
            seq![s]
        } else {
            seq![without_cr(s.take(k))] + lines(s.skip(k + 1))
        }
    }
}

pub proof fn lemma_find(s: Seq<char>, c: char)
    ensures
        0 <= find(s, c) <= s.len(),
        forall|i: int| 0 <= i < find(s, c) ==> s[i] != c,
        find(s, c) < s.len() ==> s[find(s, c)] == c,
    decreases s.len(),
{
    if s.len() == 0 || s[0] == c {
    } else {
        lemma_find(s.skip(1), c);
        assert forall|i: int| 0 <= i < find(s, c) implies s[i] != c by {
            if i > 0 {
                assert(s.skip(1)[i - 1] == s[i]);
            }
        }
    }
}

/// All characters of a string, in order.
pub fn chars_of(s: &str) -> (r: Vec<char>)
    ensures
        r@ == s@,
{
    let mut r: Vec<char> = Vec::new();
    for c in it: s.chars()
        invariant
            r@ == s@.take(it.index()),
            it.seq() == s@,
    {
        r.push(c);
    }
    assert(s@.take(s@.len() as int) == s@);
    r
}

/// The string of the characters from `from` up to, but without, `to`.
pub fn string_of(chars: &Vec<char>, from: usize, to: usize) -> (r: String)
    requires
        from <= to <= chars.len(),
    ensures
        r@ == chars@.subrange(from as int, to as int),
{
    let mut r = String::new();
    let mut i: usize = from;
    while i < to
        invariant
            from <= i <= to <= chars.len(),
            r@ == chars@.subrange(from as int, i as int),
        decreases to - i,
    {
        r.push(chars[i]);
        i += 1;
    }
    r
}

/// `find` is the only position with its two properties.
pub proof fn lemma_find_is(s: Seq<char>, c: char, k: int)
    requires
        0 <= k <= s.len(),
        forall|i: int| 0 <= i < k ==> s[i] != c,
        k < s.len() ==> s[k] == c,
    ensures
        find(s, c) == k,
{
    lemma_find(s, c);
    let f = find(s, c);
    if f < k {
        assert(s[f] != c);
    } else if k < f {
        assert(s[k] != c);
    }
}

/// No line holds a newline.
pub proof fn lemma_lines_have_no_newline(s: Seq<char>)
    ensures
        forall|i: int| 0 <= i < lines(s).len() ==> !(#[trigger] lines(s)[i]).contains('\n'),
    decreases s.len(),
{
    if s.len() > 0 {
        lemma_find(s, '\n');
        let k = find(s, '\n');
        if k < s.len() {
            lemma_lines_have_no_newline(s.skip(k + 1));
            let head = without_cr(s.take(k));
            assert forall|i: int| 0 <= i < lines(s).len() implies !(#[trigger] lines(
                s,
            )[i]).contains('\n') by {
                if i == 0 {
                    if head.contains('\n') {
                        let j = choose|j: int| 0 <= j < head.len() && head[j] == '\n';
                        assert(s[j] == '\n');
                    }
                } else {
                    assert(lines(s)[i] == lines(s.skip(k + 1))[i - 1]);
                }
            }
        }
    }
}

/// The last line of a text that does not end with a newline ends as the text does.
pub proof fn lemma_last_line(s: Seq<char>)
    requires
        s.len() > 0,
        s.last() != '\n',
    ensures
        lines(s).len() > 0,
        lines(s).last().len() > 0,
        lines(s).last().last() == s.last(),
    decreases s.len(),
{
    lemma_find(s, '\n');
    let k = find(s, '\n');
    if k < s.len() {
        let rest = s.skip(k + 1);
        assert(rest.last() == s.last());
        lemma_last_line(rest);
    }
}

/// The lines of a string.
pub fn lines_of(s: &str) -> (r: Vec<String>)
    ensures
        views(r@) == lines(s@),
{
    let chars = chars_of(s);
    let mut r: Vec<String> = Vec::new();
    let mut begin: usize = 0;
    let mut i: usize = 0;
    proof {
        assert(s@.skip(0) == s@);
        assert(views(r@) + lines(s@) == lines(s@));
    }
    while i < chars.len()
        invariant
            chars@ == s@,
            begin <= i <= chars.len(),
            forall|j: int| begin <= j < i ==> chars@[j] != '\n',
            views(r@) + lines(s@.skip(begin as int)) == lines(s@),
        decreases chars.len() - i,
    {
        if chars[i] == '\n' {
            let end: usize = if i > begin && chars[i - 1] == '\r' {
                i - 1
            } else {
                i
            };
            let line = string_of(&chars, begin, end);
            proof {
                let rest = s@.skip(begin as int);
                lemma_find_is(rest, '\n', i - begin);
                assert(without_cr(rest.take(i - begin)) == line@);
                assert(rest.skip(i - begin + 1) == s@.skip(i + 1));
                let old_views = views(r@);
                assert(views(r@.push(line)) == old_views.push(line@));
                assert(old_views + (seq![line@] + lines(s@.skip(i + 1))) == old_views.push(line@)
                    + lines(s@.skip(i + 1)));
            }
            r.push(line);
            begin = i + 1;
        }
        i += 1;
    }
    let ghost rest = s@.skip(begin as int);
    if begin < chars.len() {
        let line = string_of(&chars, begin, chars.len());
        proof {
            lemma_find_is(rest, '\n', rest.len() as int);
            assert(line@ == rest);
            assert(views(r@.push(line)) == views(r@) + seq![rest]);
        }
        r.push(line);
    } else {
        assert(views(r@) + lines(rest) == views(r@));
    }
    r
}

/// The lines of `s`, each with its line end.
pub open spec fn raw_lines(s: Seq<char>) -> Seq<Seq<char>>
    decreases s.len(),
{
    if s.len() == 0 {
        seq![]
    } else {
        proof {
            lemma_find(s, '\n');
        }
        let k = find(s, '\n');
        if k >= s.len() {
            seq![s]
        } else {
            seq![s.take(k + 1)] + raw_lines(s.skip(k + 1))
        }
    }
}

/// A line without its line end, if it has one.
pub open spec fn without_end(raw: Seq<char>) -> Seq<char> {
    if raw.len() > 0 && raw.last() == '\n' {
        without_cr(raw.drop_last())
    } else {
        raw
    }
}

/// The lines are those with line ends, without them.
pub proof fn lemma_raw_lines(s: Seq<char>)
    ensures
        raw_lines(s).len() == lines(s).len(),
        lines(s) == raw_lines(s).map_values(|raw: Seq<char>| without_end(raw)),
        s.len() > 0 ==> raw_lines(s).len() > 0 && raw_lines(s).last().len() > 0
            && raw_lines(s).last().last() == s.last(),
    decreases s.len(),
{
    if s.len() > 0 {
        lemma_find(s, '\n');
        let k = find(s, '\n');
        let strip = |raw: Seq<char>| without_end(raw);
        if k >= s.len() {
            assert(s.last() == s[s.len() - 1]);
            assert(raw_lines(s).map_values(strip) == seq![s]);
        } else {
            let rest = s.skip(k + 1);
            let first = s.take(k + 1);
            lemma_raw_lines(rest);
            assert(first.drop_last() == s.take(k));
            assert(without_end(first) == without_cr(s.take(k)));
            assert(raw_lines(s).map_values(strip) == seq![without_end(first)] + raw_lines(
                rest,
            ).map_values(strip));
            if rest.len() > 0 {
                assert(rest.last() == s.last());
                assert(raw_lines(s).last() == raw_lines(rest).last());
            } else {
                assert(raw_lines(rest).len() == 0);
                assert(raw_lines(s).last() == first);
            }
        }
    } else {
        assert(lines(s) == raw_lines(s).map_values(|raw: Seq<char>| without_end(raw)));
    }
}

/// The lines of a string, each with its line end.
pub fn raw_lines_of(s: &str) -> (r: Vec<String>)
    ensures
        views(r@) == raw_lines(s@),
{
    let chars = chars_of(s);
    let mut r: Vec<String> = Vec::new();
    let mut begin: usize = 0;
    let mut i: usize = 0;
    proof {
        assert(s@.skip(0) == s@);
        assert(views(r@) + raw_lines(s@) == raw_lines(s@));
    }
    while i < chars.len()
        invariant
            chars@ == s@,
            begin <= i <= chars.len(),
            forall|j: int| begin <= j < i ==> chars@[j] != '\n',
            views(r@) + raw_lines(s@.skip(begin as int)) == raw_lines(s@),
        decreases chars.len() - i,
    {
        if chars[i] == '\n' {
            let line = string_of(&chars, begin, i + 1);
            proof {
                let rest = s@.skip(begin as int);
                lemma_find_is(rest, '\n', i - begin);
                assert(rest.take(i - begin + 1) == line@);
                assert(rest.skip(i - begin + 1) == s@.skip(i + 1));
                let before = views(r@);
                assert(views(r@.push(line)) == before.push(line@));
                assert(before + (seq![line@] + raw_lines(s@.skip(i + 1))) == before.push(line@)
                    + raw_lines(s@.skip(i + 1)));
            }
            r.push(line);
            begin = i + 1;
        }
        i += 1;
    }
    let ghost rest = s@.skip(begin as int);
    if begin < chars.len() {
        let line = string_of(&chars, begin, chars.len());
        proof {
            lemma_find_is(rest, '\n', rest.len() as int);
            assert(line@ == rest);
            assert(views(r@.push(line)) == views(r@) + seq![rest]);
        }
        r.push(line);
    } else {
        assert(views(r@) + raw_lines(rest) == views(r@));
    }
    r
}

/// The parts one after the other, with `sep` between neighbours.
pub open spec fn join(parts: Seq<Seq<char>>, sep: Seq<char>) -> Seq<char>
    decreases parts.len(),
{
    if parts.len() == 0 {
        seq![]
    } else if parts.len() == 1 {
        parts[0]
    } else {
        parts[0] + sep + join(parts.skip(1), sep)
    }
}

/// One more part goes behind a further separator.
pub proof fn lemma_join_push(parts: Seq<Seq<char>>, sep: Seq<char>, last: Seq<char>)
    requires
        parts.len() > 0,
    ensures
        join(parts.push(last), sep) == join(parts, sep) + sep + last,
    decreases parts.len(),
{
    let all = parts.push(last);
    assert(all.skip(1) == parts.skip(1).push(last));
    if parts.len() == 1 {
        assert(all.skip(1) == seq![last]);
        assert(join(all.skip(1), sep) == last);
    } else {
        lemma_join_push(parts.skip(1), sep, last);
        assert(join(all, sep) == parts[0] + sep + join(all.skip(1), sep));
        assert(parts[0] + sep + (join(parts.skip(1), sep) + sep + last) == (parts[0] + sep + join(
            parts.skip(1),
            sep,
        )) + sep + last);
    }
}

/// The strings one after the other, with `sep` between neighbours.
pub fn join_strings(parts: &Vec<String>, sep: &str) -> (r: String)
    ensures
        r@ == join(views(parts@), sep@),
{
    let mut r = String::new();
    let mut i: usize = 0;
    while i < parts.len()
        invariant
            i <= parts.len(),
            r@ == join(views(parts@).take(i as int), sep@),
        decreases parts.len() - i,
    {
        proof {
            let done = views(parts@).take(i as int);
            assert(views(parts@).take(i + 1) == done.push(parts@[i as int]@));
            if i == 0 {
                assert(views(parts@).take(1) == seq![parts@[0]@]);
            } else {
                lemma_join_push(done, sep@, parts@[i as int]@);
            }
        }
        if i > 0 {
            r.append(sep);
        }
        r.append(parts[i].as_str());
        i += 1;
    }
    assert(views(parts@).take(parts@.len() as int) == views(parts@));
    r
}

/// The decimal digit for a number below ten.
pub open spec fn digit(d: nat) -> char {
    (48 + d) as char
}

/// A number in decimal notation.
pub open spec fn decimal(n: nat) -> Seq<char>
    decreases n,
{
    if n < 10 {
        seq![digit(n)]
    } else {
        decimal(n / 10).push(digit(n % 10))
    }
}

/// A number in decimal notation.
pub fn decimal_of(n: usize) -> (r: String)
    ensures
        r@ == decimal(n as nat),
    decreases n,
{
    let mut r = if n < 10 {
        String::new()
    } else {
        decimal_of(n / 10)
    };
    let d: u8 = (n % 10) as u8;
    let c = (48u8 + d) as char;
    r.push(c);
    r
}

/// The number of bytes of a text in UTF-8.
pub open spec fn byte_len(s: Seq<char>) -> nat {
    vstd::utf8::encode_utf8(s).len()
}

/// Byte counts add up.
pub proof fn lemma_byte_len_add(a: Seq<char>, b: Seq<char>)
    ensures
        byte_len(a + b) == byte_len(a) + byte_len(b),
    decreases a.len(),
{
    if a.len() == 0 {
        assert(a + b == b);
    } else {
        assert((a + b).drop_first() == a.drop_first() + b);
        lemma_byte_len_add(a.drop_first(), b);
    }
}

/// The number of bytes of a string.
pub fn byte_len_of(s: &str) -> (r: usize)
    ensures
        r == byte_len(s@),
{
    s.as_bytes().len()
}

} // verus!
