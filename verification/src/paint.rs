//! Text with colours, as the terminal is to show it.
use colored::Colorize;
use vstd::prelude::*;

verus! {

/// How a piece of text is to look.
#[derive(Debug, Clone, Copy, PartialEq, Eq, Structural)]
pub enum Style {
    Plain,
    Bold,
    BoldUnderline,
    BrightBlack,
    Yellow,
    Magenta,
    Cyan,
    RedBold,
    GreenBold,
    YellowBold,
    BlueBold,
    CyanBold,
}

/// The codes between `ESC [` and `m` that switch a style on.
pub open spec fn codes(style: Style) -> Seq<char> {
    match style {
        Style::Plain => ""@,
        Style::Bold => "1"@,
        Style::BoldUnderline => "1;4"@,
        Style::BrightBlack => "90"@,
        Style::Yellow => "33"@,
        Style::Magenta => "35"@,
        Style::Cyan => "36"@,
        Style::RedBold => "1;31"@,
        Style::GreenBold => "1;32"@,
        Style::YellowBold => "1;33"@,
        Style::BlueBold => "1;34"@,
        Style::CyanBold => "1;36"@,
    }
}

/// The sequence that switches a style on.
pub open spec fn switch_on(codes: Seq<char>) -> Seq<char> {
    seq!['\u{1b}', '['] + codes + seq!['m']
}

/// The sequence that switches all styles off.
pub open spec fn reset() -> Seq<char> {
    seq!['\u{1b}', '[', '0', 'm']
}

/// A text with spaces behind it, up to `width` characters.
pub open spec fn padded(text: Seq<char>, width: int) -> Seq<char>
    decreases width - text.len(),
{
    if text.len() < width {
        padded(text.push(' '), width)
    } else {
        text
    }
}

/// A text in which `on` follows every reset.
pub open spec fn restyled(text: Seq<char>, on: Seq<char>) -> Seq<char>
    decreases text.len(),
{
    if text.len() < reset().len() {
        text
    } else if text.take(reset().len() as int) == reset() {
        reset() + on + restyled(text.skip(reset().len() as int), on)
    } else {
        seq![text[0]] + restyled(text.skip(1), on)
    }
}

/// The largest width that a format string takes.
pub const MAX_WIDTH: usize = 65535;

/// `shown` is the text in a style, padded to a width: with the sequences of the style
/// where the terminal takes colours, and without where it does not.
///
/// `colored` decides which from the environment and from what was set for the process.
/// The decision is taken not to change while one text is being written.
pub open spec fn shows(text: Seq<char>, codes: Seq<char>, width: int, shown: Seq<char>) -> bool {
    ||| shown == padded(text, width)
    ||| shown == switch_on(codes) + padded(restyled(text, switch_on(codes)), width) + reset()
}

/// `bold` of `colored::Colorize`, written by the `Display` of `ColoredString`.
///
/// The text is padded to `width` characters; around it stand the codes of the style and
/// the reset, or neither.
#[verifier::external_body]
fn bold(text: &str, width: usize) -> (r: String)
    requires
        width <= MAX_WIDTH,
    ensures
        shows(text@, "1"@, width as int, r@),
{
    format!("{: <width$}", text.bold())
}

/// `bold` and `underline` of `colored::Colorize`, written by the `Display` of `ColoredString`.
///
/// The text is padded to `width` characters; around it stand the codes of the style and
/// the reset, or neither.
#[verifier::external_body]
fn bold_underline(text: &str, width: usize) -> (r: String)
    requires
        width <= MAX_WIDTH,
    ensures
        shows(text@, "1;4"@, width as int, r@),
{
    format!("{: <width$}", text.bold().underline())
}

/// `bright_black` of `colored::Colorize`, written by the `Display` of `ColoredString`.
///
/// The text is padded to `width` characters; around it stand the codes of the style and
/// the reset, or neither.
#[verifier::external_body]
fn bright_black(text: &str, width: usize) -> (r: String)
    requires
        width <= MAX_WIDTH,
    ensures
        shows(text@, "90"@, width as int, r@),
{
    format!("{: <width$}", text.bright_black())
}

/// `yellow` of `colored::Colorize`, written by the `Display` of `ColoredString`.
///
/// The text is padded to `width` characters; around it stand the codes of the style and
/// the reset, or neither.
#[verifier::external_body]
fn yellow(text: &str, width: usize) -> (r: String)
    requires
        width <= MAX_WIDTH,
    ensures
        shows(text@, "33"@, width as int, r@),
{
    format!("{: <width$}", text.yellow())
}

/// `magenta` of `colored::Colorize`, written by the `Display` of `ColoredString`.
///
/// The text is padded to `width` characters; around it stand the codes of the style and
/// the reset, or neither.
#[verifier::external_body]
fn magenta(text: &str, width: usize) -> (r: String)
    requires
        width <= MAX_WIDTH,
    ensures
        shows(text@, "35"@, width as int, r@),
{
    format!("{: <width$}", text.magenta())
}

/// `cyan` of `colored::Colorize`, written by the `Display` of `ColoredString`.
///
/// The text is padded to `width` characters; around it stand the codes of the style and
/// the reset, or neither.
#[verifier::external_body]
fn cyan(text: &str, width: usize) -> (r: String)
    requires
        width <= MAX_WIDTH,
    ensures
        shows(text@, "36"@, width as int, r@),
{
    format!("{: <width$}", text.cyan())
}

/// `red` and `bold` of `colored::Colorize`, written by the `Display` of `ColoredString`.
///
/// The text is padded to `width` characters; around it stand the codes of the style and
/// the reset, or neither.
#[verifier::external_body]
fn red_bold(text: &str, width: usize) -> (r: String)
    requires
        width <= MAX_WIDTH,
    ensures
        shows(text@, "1;31"@, width as int, r@),
{
    format!("{: <width$}", text.red().bold())
}

/// `green` and `bold` of `colored::Colorize`, written by the `Display` of `ColoredString`.
///
/// The text is padded to `width` characters; around it stand the codes of the style and
/// the reset, or neither.
#[verifier::external_body]
fn green_bold(text: &str, width: usize) -> (r: String)
    requires
        width <= MAX_WIDTH,
    ensures
        shows(text@, "1;32"@, width as int, r@),
{
    format!("{: <width$}", text.green().bold())
}

/// `yellow` and `bold` of `colored::Colorize`, written by the `Display` of `ColoredString`.
///
/// The text is padded to `width` characters; around it stand the codes of the style and
/// the reset, or neither.
#[verifier::external_body]
fn yellow_bold(text: &str, width: usize) -> (r: String)
    requires
        width <= MAX_WIDTH,
    ensures
        shows(text@, "1;33"@, width as int, r@),
{
    format!("{: <width$}", text.yellow().bold())
}

/// `blue` and `bold` of `colored::Colorize`, written by the `Display` of `ColoredString`.
///
/// The text is padded to `width` characters; around it stand the codes of the style and
/// the reset, or neither.
#[verifier::external_body]
fn blue_bold(text: &str, width: usize) -> (r: String)
    requires
        width <= MAX_WIDTH,
    ensures
        shows(text@, "1;34"@, width as int, r@),
{
    format!("{: <width$}", text.blue().bold())
}

/// `cyan` and `bold` of `colored::Colorize`, written by the `Display` of `ColoredString`.
///
/// The text is padded to `width` characters; around it stand the codes of the style and
/// the reset, or neither.
#[verifier::external_body]
fn cyan_bold(text: &str, width: usize) -> (r: String)
    requires
        width <= MAX_WIDTH,
    ensures
        shows(text@, "1;36"@, width as int, r@),
{
    format!("{: <width$}", text.cyan().bold())
}

/// `shown` is the text in a style, or as it is where the style is plain.
pub open spec fn shows_styled(text: Seq<char>, style: Style, width: int, shown: Seq<char>) -> bool {
    if style == Style::Plain {
        shown == padded(text, width)
    } else {
        shows(text, codes(style), width, shown)
    }
}

/// The text with spaces behind it, up to `width` characters.
pub fn pad(text: &str, width: usize) -> (r: String)
    ensures
        r@ == padded(text@, width as int),
{
    let mut r = text.to_owned();
    let mut n: usize = text.unicode_len();
    while n < width
        invariant
            n == r@.len(),
            padded(text@, width as int) == padded(r@, width as int),
        decreases width - n,
    {
        r.push(' ');
        n += 1;
    }
    r
}

/// The text in a style, padded to `width` characters.
pub fn paint(text: &str, style: Style, width: usize) -> (r: String)
    requires
        width <= MAX_WIDTH,
    ensures
        shows_styled(text@, style, width as int, r@),
{
    match style {
        Style::Plain => pad(text, width),
        Style::Bold => bold(text, width),
        Style::BoldUnderline => bold_underline(text, width),
        Style::BrightBlack => bright_black(text, width),
        Style::Yellow => yellow(text, width),
        Style::Magenta => magenta(text, width),
        Style::Cyan => cyan(text, width),
        Style::RedBold => red_bold(text, width),
        Style::GreenBold => green_bold(text, width),
        Style::YellowBold => yellow_bold(text, width),
        Style::BlueBold => blue_bold(text, width),
        Style::CyanBold => cyan_bold(text, width),
    }
}

} // verus!
