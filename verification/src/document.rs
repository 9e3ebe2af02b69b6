//! Documents for the terminal: pieces of styled text, and blocks of source code.
use crate::paint::{paint, Style, MAX_WIDTH};
use crate::text::{chars_of, join_strings, lines_of, string_of};
use crate::words::{skip_white_space, trim_of};
use vstd::prelude::*;

verus! {

/// A piece of a document: text in a style, padded to a number of characters.
#[derive(Debug, Clone)]
pub struct Piece {
    pub text: String,
    pub style: Style,
    pub width: usize,
}

/// What a piece says.
pub struct Fragment {
    pub text: Seq<char>,
    pub style: Style,
    pub width: int,
}

/// What a piece says.
pub open spec fn fragment(piece: Piece) -> Fragment {
    Fragment { text: piece.text@, style: piece.style, width: piece.width as int }
}

/// What the pieces of a document say.
pub open spec fn fragments(pieces: Seq<Piece>) -> Seq<Fragment> {
    Seq::new(pieces.len(), |i: int| fragment(pieces[i]))
}

/// Text as it is.
pub open spec fn plain(text: Seq<char>) -> Fragment {
    Fragment { text, style: Style::Plain, width: 0 }
}

/// Text in a style.
pub open spec fn styled(text: Seq<char>, style: Style) -> Fragment {
    Fragment { text, style, width: 0 }
}

/// Text in a style, padded.
pub open spec fn column(text: Seq<char>, style: Style, width: int) -> Fragment {
    Fragment { text, style, width }
}

/// Text as it is.
pub fn plain_piece(text: &str) -> (r: Piece)
    ensures
        fragment(r) == plain(text@),
{
    Piece { text: text.to_owned(), style: Style::Plain, width: 0 }
}

/// Text in a style.
pub fn styled_piece(text: &str, style: Style) -> (r: Piece)
    ensures
        fragment(r) == styled(text@, style),
{
    Piece { text: text.to_owned(), style, width: 0 }
}

/// Text in a style, padded.
pub fn column_piece(text: &str, style: Style, width: usize) -> (r: Piece)
    ensures
        fragment(r) == column(text@, style, width as int),
{
    Piece { text: text.to_owned(), style, width }
}

/// Whether `s` begins with `a` and `b`.
pub open spec fn begins_with(s: Seq<char>, a: char, b: char) -> bool {
    s.len() >= 2 && s[0] == a && s[1] == b
}

/// Whether a line is, or begins with, a tag that opens or closes PHP.
pub open spec fn is_php_tag(line: Seq<char>) -> bool {
    begins_with(line, '<', '?') || begins_with(line, '?', '>')
}

/// The white space at the start of a line.
pub open spec fn indentation(line: Seq<char>) -> Seq<char> {
    line.take(line.len() - crate::words::trim_start(line).len())
}

/// The style of a line of code behind its indentation.
pub open spec fn code_style(line: Seq<char>) -> Style {
    if is_php_tag(crate::words::trim_start(line)) {
        Style::YellowBold
    } else {
        Style::Plain
    }
}

/// What stands in front of every line of a code block.
pub open spec fn gutter() -> Seq<char> {
    "  │    "@
}

/// A line of a code block: the gutter, the dimmed indentation, and the rest.
pub open spec fn line_fragments(line: Seq<char>) -> Seq<Fragment> {
    seq![
        plain(gutter()),
        styled(indentation(line), Style::BrightBlack),
        styled(crate::words::trim_start(line), code_style(line)),
    ]
}

/// The lines of a code block, with a newline between neighbours.
pub open spec fn block_fragments(lines: Seq<Seq<char>>) -> Seq<Fragment>
    decreases lines.len(),
{
    if lines.len() == 0 {
        seq![]
    } else if lines.len() == 1 {
        line_fragments(lines[0])
    } else {
        block_fragments(lines.drop_last()) + seq![plain("\n"@)] + line_fragments(lines.last())
    }
}

/// Source code as a block, without the white space around it.
pub open spec fn code_fragments(code: Seq<char>) -> Seq<Fragment> {
    block_fragments(crate::text::lines(crate::words::trim(code)))
}

/// The pieces of a line of a code block.
fn line_pieces(line: &String) -> (r: Vec<Piece>)
    ensures
        fragments(r@) == line_fragments(line@),
{
    let chars = chars_of(line.as_str());
    let n = skip_white_space(&chars, 0);
    assert(chars@.skip(0) == line@);
    let indent = string_of(&chars, 0, n);
    let rest = string_of(&chars, n, chars.len());
    proof {
        assert(crate::words::trim_start(line@) == chars@.skip(n as int));
        assert(rest@ == chars@.skip(n as int));
        assert(indent@ == indentation(line@));
    }
    let tag = n < chars.len() && n + 1 < chars.len() && ((chars[n] == '<' && chars[n + 1] == '?')
        || (chars[n] == '?' && chars[n + 1] == '>'));
    let style = if tag {
        Style::YellowBold
    } else {
        Style::Plain
    };
    assert(style == code_style(line@));
    let r = vec![
        plain_piece("  │    "),
        styled_piece(indent.as_str(), Style::BrightBlack),
        styled_piece(rest.as_str(), style),
    ];
    assert(fragments(r@) == line_fragments(line@));
    r
}

/// The pieces of source code as a block: every line behind a gutter, its indentation dimmed,
/// and lines that begin with a PHP tag in colour.
pub fn code_pieces(code: &str) -> (r: Vec<Piece>)
    ensures
        fragments(r@) == code_fragments(code@),
{
    let trimmed = trim_of(code);
    let list = lines_of(trimmed.as_str());
    let ghost lines = crate::text::lines(crate::words::trim(code@));
    let mut r: Vec<Piece> = Vec::new();
    let mut i: usize = 0;
    assert(fragments(r@) == block_fragments(lines.take(0)));
    while i < list.len()
        invariant
            i <= list@.len() == lines.len(),
            lines == crate::text::views(list@),
            fragments(r@) == block_fragments(lines.take(i as int)),
        decreases list@.len() - i,
    {
        let ghost before = fragments(r@);
        let ghost next = lines.take(i + 1);
        assert(next.drop_last() == lines.take(i as int));
        assert(next.last() == list@[i as int]@);
        if i > 0 {
            r.push(plain_piece("\n"));
            assert(fragments(r@) == before + seq![plain("\n"@)]);
        }
        let ghost between = fragments(r@);
        let mut line = line_pieces(&list[i]);
        let ghost added = fragments(line@);
        r.append(&mut line);
        assert(fragments(r@) == between + added);
        if i == 0 {
            assert(between + added == added);
        }
        i += 1;
    }
    assert(lines.take(lines.len() as int) == lines);
    r
}

proof fn lemma_block_has_no_widths(lines: Seq<Seq<char>>)
    ensures
        widths_fit(block_fragments(lines)),
    decreases lines.len(),
{
    if lines.len() > 1 {
        lemma_block_has_no_widths(lines.drop_last());
    }
}

/// Shows source code as a block: every line behind a gutter, its indentation dimmed, and
/// lines that begin with a PHP tag in colour, as far as the terminal takes colours.
pub fn colorize_code_block(code: &str) -> (r: String)
    ensures
        shows_all(code_fragments(code@), r@),
{
    proof {
        lemma_block_has_no_widths(crate::text::lines(crate::words::trim(code@)));
    }
    render(&code_pieces(code))
}

/// `shown` is what a fragment says, in the colours that the terminal takes.
pub open spec fn shows_fragment(f: Fragment, shown: Seq<char>) -> bool {
    crate::paint::shows_styled(f.text, f.style, f.width, shown)
}

/// Each part is what the fragment at its position says.
pub open spec fn shows_each(list: Seq<Fragment>, parts: Seq<Seq<char>>) -> bool {
    &&& parts.len() == list.len()
    &&& forall|i: int| 0 <= i < list.len() ==> shows_fragment(#[trigger] list[i], parts[i])
}

/// `shown` is what all fragments say, one after the other.
pub open spec fn shows_all(list: Seq<Fragment>, shown: Seq<char>) -> bool {
    exists|parts: Seq<Seq<char>>| #[trigger]
        shows_each(list, parts) && shown == crate::text::join(parts, seq![])
}

/// No piece is wider than a format string takes.
pub open spec fn widths_fit(list: Seq<Fragment>) -> bool {
    forall|i: int|
        0 <= i < list.len() ==> (#[trigger] list[i]).width <= MAX_WIDTH
}

/// The document as it goes to the terminal.
pub fn render(pieces: &Vec<Piece>) -> (r: String)
    requires
        widths_fit(fragments(pieces@)),
    ensures
        shows_all(fragments(pieces@), r@),
{
    let mut parts: Vec<String> = Vec::new();
    let mut i: usize = 0;
    let ghost list = fragments(pieces@);
    while i < pieces.len()
        invariant
            i <= pieces@.len(),
            list == fragments(pieces@),
            widths_fit(list),
            parts@.len() == i,
            forall|j: int| 0 <= j < i ==> shows_fragment(#[trigger] list[j], parts@[j]@),
        decreases pieces@.len() - i,
    {
        assert(list[i as int] == fragment(pieces@[i as int]));
        let piece = &pieces[i];
        let part = paint(piece.text.as_str(), piece.style, piece.width);
        assert(shows_fragment(list[i as int], part@));
        parts.push(part);
        i += 1;
    }
    assert(shows_each(list, crate::text::views(parts@)));
    proof {
        reveal_strlit("");
        assert(""@ == Seq::<char>::empty());
    }
    join_strings(&parts, "")
}

} // verus!
