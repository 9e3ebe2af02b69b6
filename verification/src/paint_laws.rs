//! What shown text looks like: its padding, its colour codes and the order of its parts.
use crate::document::{Fragment, Piece};
use crate::paint::Style;
use vstd::prelude::*;

verus! {

/// Padded text is the text with spaces behind it, as many as it takes to reach the width.
pub proof fn padding_is_spaces_behind_the_text(text: Seq<char>, width: int)
    ensures
        ({
            let shown = crate::paint::padded(text, width);
            &&& shown.len() == crate::context_laws::larger(text.len() as int, width)
            &&& shown.take(text.len() as int) == text
            &&& forall|i: int| text.len() <= i < shown.len() ==> #[trigger] shown[i] == ' '
        }),
    decreases width - text.len(),
{
    let shown = crate::paint::padded(text, width);
    if text.len() < width {
        let longer = text.push(' ');
        padding_is_spaces_behind_the_text(longer, width);
        assert(shown.take(text.len() as int) == longer.take(text.len() as int)) by {
            assert forall|i: int| 0 <= i < text.len() implies shown[i] == text[i] by {
                assert(shown.take(longer.len() as int)[i] == longer[i]);
            }
        }
        assert(longer.take(text.len() as int) == text);
        assert forall|i: int| text.len() <= i < shown.len() implies #[trigger] shown[i] == ' ' by {
            if i == text.len() {
                assert(shown.take(longer.len() as int)[i] == longer[i]);
            }
        }
    } else {
        assert(text.take(text.len() as int) == text);
    }
}

/// Text without an escape character takes colour codes as it is.
pub proof fn text_without_escapes_is_not_changed(text: Seq<char>, on: Seq<char>)
    requires
        !text.contains('\u{1b}'),
    ensures
        crate::paint::restyled(text, on) == text,
    decreases text.len(),
{
    let reset = crate::paint::reset();
    if text.len() >= reset.len() {
        assert(reset[0] == '\u{1b}');
        if text.take(reset.len() as int) == reset {
            assert(text[0] == text.take(reset.len() as int)[0]);
            assert(text.contains(text[0]));
        }
        let rest = text.skip(1);
        assert forall|i: int| 0 <= i < rest.len() implies rest[i] != '\u{1b}' by {
            assert(rest[i] == text[i + 1]);
            assert(text.contains(text[i + 1]));
        }
        text_without_escapes_is_not_changed(rest, on);
        assert(seq![text[0]] + rest == text);
    }
}

/// Where text resets the codes itself, they are switched on again behind that.
pub proof fn resets_are_followed_by_the_codes(
    before: Seq<char>,
    after: Seq<char>,
    on: Seq<char>,
)
    requires
        !before.contains('\u{1b}'),
    ensures
        crate::paint::restyled(before + seq!['\u{1b}', '[', '0', 'm'] + after, on) == before
            + seq!['\u{1b}', '[', '0', 'm'] + on + crate::paint::restyled(after, on),
    decreases before.len(),
{
    let reset = seq!['\u{1b}', '[', '0', 'm'];
    let text = before + reset + after;
    if before.len() == 0 {
        assert(text.take(4) == reset);
        assert(text.skip(4) == after);
        assert(before + reset == reset);
    } else {
        let rest = before.skip(1);
        assert forall|i: int| 0 <= i < rest.len() implies rest[i] != '\u{1b}' by {
            assert(rest[i] == before[i + 1]);
            assert(before.contains(before[i + 1]));
        }
        resets_are_followed_by_the_codes(rest, after, on);
        assert(before.contains(before[0]));
        assert(text[0] == before[0]);
        assert(text.take(4)[0] == text[0]);
        assert(text.skip(1) == rest + reset + after);
        assert(before == seq![before[0]] + rest);
        assert(crate::paint::restyled(text, on) == before + reset + on + crate::paint::restyled(
            after,
            on,
        ));
    }
}

/// Styled text is shown padded as it is, or, padded, between the sequence that switches its
/// codes on and the one that resets them.
pub proof fn styled_text_is_shown_with_codes_or_without(
    text: Seq<char>,
    style: Style,
    width: int,
    shown: Seq<char>,
)
    requires
        crate::paint::shows_styled(text, style, width, shown),
    ensures
        ({
            let on = seq!['\u{1b}', '['] + crate::paint::codes(style) + seq!['m'];
            shown == crate::paint::padded(text, width) || shown == on + crate::paint::padded(
                crate::paint::restyled(text, on),
                width,
            ) + seq!['\u{1b}', '[', '0', 'm']
        }),
{
}

/// Text that is long enough and has no escape character is shown as it is, or, in a style,
/// between the sequence that switches its codes on and the one that resets them. Nothing else
/// is shown.
pub proof fn styles_stand_around_the_text(
    text: Seq<char>,
    style: Style,
    width: int,
    shown: Seq<char>,
)
    requires
        width <= text.len(),
        !text.contains('\u{1b}'),
        crate::paint::shows_styled(text, style, width, shown),
    ensures
        style == Style::Plain ==> shown == text,
        shown == text || shown == seq!['\u{1b}', '['] + crate::paint::codes(style) + seq!['m']
            + text + seq!['\u{1b}', '[', '0', 'm'],
{
    text_without_escapes_is_not_changed(text, crate::paint::switch_on(crate::paint::codes(style)));
}

/// Text without a style is shown as it is, padded.
pub proof fn plain_text_has_no_codes(text: Seq<char>, width: int, shown: Seq<char>)
    requires
        crate::paint::shows_styled(text, Style::Plain, width, shown),
    ensures
        shown.len() == crate::context_laws::larger(text.len() as int, width),
        shown.take(text.len() as int) == text,
        forall|i: int| text.len() <= i < shown.len() ==> #[trigger] shown[i] == ' ',
{
    padding_is_spaces_behind_the_text(text, width);
}

/// The codes of each style: one for bold and underline, thirty and more for colours, and
/// ninety for bright black.
pub proof fn styles_have_their_codes()
    ensures
        crate::paint::codes(Style::Plain) == ""@,
        crate::paint::codes(Style::Bold) == "1"@,
        crate::paint::codes(Style::BoldUnderline) == "1;4"@,
        crate::paint::codes(Style::BrightBlack) == "90"@,
        crate::paint::codes(Style::Yellow) == "33"@,
        crate::paint::codes(Style::Magenta) == "35"@,
        crate::paint::codes(Style::Cyan) == "36"@,
        crate::paint::codes(Style::RedBold) == "1;31"@,
        crate::paint::codes(Style::GreenBold) == "1;32"@,
        crate::paint::codes(Style::YellowBold) == "1;33"@,
        crate::paint::codes(Style::BlueBold) == "1;34"@,
        crate::paint::codes(Style::CyanBold) == "1;36"@,
{
}

/// Pieces keep their text, style and width, in their order.
pub proof fn pieces_are_shown_as_they_are(pieces: Seq<Piece>)
    ensures
        crate::document::fragments(pieces).len() == pieces.len(),
        forall|i: int|
            0 <= i < pieces.len() ==> #[trigger] crate::document::fragments(pieces)[i]
                == (Fragment {
                text: pieces[i].text@,
                style: pieces[i].style,
                width: pieces[i].width as int,
            }),
{
}

/// Pieces without a width are not padded.
pub proof fn pieces_without_width_are_not_padded(text: Seq<char>, style: Style, width: int)
    ensures
        crate::document::plain(text) == (Fragment { text, style: Style::Plain, width: 0 }),
        crate::document::styled(text, style) == (Fragment { text, style, width: 0 }),
        crate::document::column(text, style, width) == (Fragment { text, style, width }),
{
}

/// A document is shown part by part, in order and with nothing between: each fragment in its
/// style and padded to its width.
pub proof fn documents_are_shown_part_by_part(list: Seq<Fragment>, shown: Seq<char>) -> (parts: Seq<
    Seq<char>,
>)
    requires
        crate::document::shows_all(list, shown),
    ensures
        parts.len() == list.len(),
        shown == crate::text_laws::concatenated(parts),
        forall|i: int|
            0 <= i < list.len() ==> crate::paint::shows_styled(
                (#[trigger] list[i]).text,
                list[i].style,
                list[i].width,
                parts[i],
            ),
{
    let parts = choose|parts: Seq<Seq<char>>| #[trigger]
        crate::document::shows_each(list, parts) && shown == crate::text::join(parts, seq![]);
    lemma_join_nothing(parts);
    parts
}

proof fn lemma_join_nothing(parts: Seq<Seq<char>>)
    ensures
        crate::text::join(parts, seq![]) == crate::text_laws::concatenated(parts),
    decreases parts.len(),
{
    if parts.len() == 1 {
        assert(parts.skip(1) == Seq::<Seq<char>>::empty());
        assert(crate::text_laws::concatenated(parts.skip(1)) == Seq::<char>::empty());
        assert(crate::text_laws::concatenated(parts) == parts[0]);
    } else if parts.len() > 1 {
        lemma_join_nothing(parts.skip(1));
        assert(crate::text::join(parts, seq![]) == parts[0] + Seq::<char>::empty()
            + crate::text_laws::concatenated(parts.skip(1)));
        assert(parts[0] + Seq::<char>::empty() == parts[0]);
    }
}

/// Documents can be shown exactly if no column is wider than sixteen bits can say.
pub proof fn columns_have_a_width_of_sixteen_bits(list: Seq<Fragment>)
    ensures
        crate::document::widths_fit(list) <==> forall|i: int|
            0 <= i < list.len() ==> (#[trigger] list[i]).width <= 0xffff,
{
}

} // verus!
