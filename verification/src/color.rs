//! The colours rows are tinted with, and the calls that tint text.

use vstd::prelude::*;

verus! {

/// The colours a row can be shown in.
#[derive(Debug, Clone, Copy, PartialEq, Eq, Structural)]
pub enum Color {
    Blue,
    Red,
    Yellow,
    Green,
    Magenta,
    Cyan,
    /// Kept apart from the cycle, for the row that gathers the remainder.
    White,
}

/// The digits by which a terminal knows `color` as a foreground colour.
pub open spec fn ansi_code(color: Color) -> Seq<char> {
    match color {
        Color::Red => seq!['3', '1'],
        Color::Green => seq!['3', '2'],
        Color::Yellow => seq!['3', '3'],
        Color::Blue => seq!['3', '4'],
        Color::Magenta => seq!['3', '5'],
        Color::Cyan => seq!['3', '6'],
        Color::White => seq!['3', '7'],
    }
}

/// The escape sequence that ends every tint.
pub open spec fn ansi_reset() -> Seq<char> {
    seq!['\x1b', '[', '0', 'm']
}

/// `text` between the escape sequence that starts `color` and the reset.
pub open spec fn ansi_colored(text: Seq<char>, color: Color) -> Seq<char> {
    seq!['\x1b', '['] + ansi_code(color) + seq!['m'] + text + ansi_reset()
}

/// `text` between the escape sequence that starts bold cyan and the reset.
pub open spec fn ansi_heading(text: Seq<char>) -> Seq<char> {
    seq!['\x1b', '[', '1', ';', '3', '6', 'm'] + text + ansi_reset()
}

/// `text` holds the reset sequence somewhere.
pub open spec fn holds_reset(text: Seq<char>) -> bool {
    exists|at: int|
        0 <= at && at + 4 <= text.len() && #[trigger] text.subrange(at, at + 4) == ansi_reset()
}

/// No character of `text` is the escape character.
pub open spec fn escape_free(text: Seq<char>) -> bool {
    forall|i: int| 0 <= i < text.len() ==> text[i] != '\x1b'
}

/// A text without an escape character holds no reset sequence.
pub proof fn lemma_escape_free_holds_no_reset(text: Seq<char>)
    requires
        escape_free(text),
    ensures
        !holds_reset(text),
{
    assert forall|at: int| 0 <= at && at + 4 <= text.len() implies #[trigger] text.subrange(
        at,
        at + 4,
    ) != ansi_reset() by {
        assert(text.subrange(at, at + 4)[0] == text[at]);
        assert(ansi_reset()[0] == '\x1b');
    }
}

/// `shown` is what tinting `plain` with `color` may give: the text as it
/// is where colours are switched off, the text inside its escape sequences
/// where they are on. Nothing is said of a text that holds the reset
/// sequence itself.
pub open spec fn is_tinted(plain: Seq<char>, shown: Seq<char>, color: Color) -> bool {
    !holds_reset(plain) ==> (shown == plain || shown == ansi_colored(plain, color))
}

/// `shown` is what setting `plain` in bold cyan may give, in the same two
/// ways.
pub open spec fn is_heading(plain: Seq<char>, shown: Seq<char>) -> bool {
    !holds_reset(plain) ==> (shown == plain || shown == ansi_heading(plain))
}

/// Tints `text` through `colored`: `Colorize::color` on the text, formatted
/// by the `Display` of the `ColoredString` it returns. Whether colours are on
/// is `colored`'s decision, taken from the environment, so the contract
/// allows both outcomes. With colours on `colored` rewrites the reset
/// sequences that it finds inside the text and leaves every other text as
/// it is; the contract leaves the texts with a reset sequence out.
#[verifier::external_body]
pub(crate) fn paint(text: &str, color: Color) -> (shown: String)
    ensures
        is_tinted(text@, shown@, color),
{
    let tint = match color {
        Color::Blue => colored::Color::Blue,
        Color::Red => colored::Color::Red,
        Color::Yellow => colored::Color::Yellow,
        Color::Green => colored::Color::Green,
        Color::Magenta => colored::Color::Magenta,
        Color::Cyan => colored::Color::Cyan,
        Color::White => colored::Color::White,
    };
    format!("{}", colored::Colorize::color(text, tint))
}

/// Sets `text` in bold cyan through `colored`: `Colorize::cyan`, then
/// `Colorize::bold`, formatted by the `Display` of the `ColoredString`. The
/// contract allows the plain and the coloured outcome, as for `paint`.
#[verifier::external_body]
pub(crate) fn paint_heading(text: &str) -> (shown: String)
    ensures
        is_heading(text@, shown@),
{
    format!("{}", colored::Colorize::bold(colored::Colorize::cyan(text)))
}

} // verus!
