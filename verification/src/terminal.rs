//! The control sequences that move the cursor and clear a line of the
//! terminal, as the `termion` crate writes them.

use vstd::prelude::*;
use crate::text::decimal;

verus! {

/// The sequence that puts the cursor in column `x` of line `y`, both counted
/// from 1: escape, `[`, the line, `;`, the column, `H`.
pub open spec fn goto_text(x: u16, y: u16) -> Seq<char> {
    seq!['\u{1b}', '['] + decimal(y as nat) + seq![';'] + decimal(x as nat) + seq!['H']
}

/// The sequence that clears the line of the cursor: escape, `[2K`.
pub open spec fn clear_line_text() -> Seq<char> {
    seq!['\u{1b}', '[', '2', 'K']
}

/// Formats `termion::cursor::Goto(x, y)`. Believed, not proved: the text is
/// escape, `[`, `y` in decimal, `;`, `x` in decimal, `H`. The position (0, 0)
/// is left out, which termion refuses in a debug build.
#[verifier::external_body]
pub(crate) fn cursor_to(x: u16, y: u16) -> (text: String)
    requires
        x != 0 || y != 0,
    ensures
        text@ == goto_text(x, y),
{
    format!("{}", termion::cursor::Goto(x, y))
}

/// Formats `termion::clear::CurrentLine`. Believed, not proved: the text is
/// escape, `[2K`.
#[verifier::external_body]
pub(crate) fn clear_line() -> (text: String)
    ensures
        text@ == clear_line_text(),
{
    format!("{}", termion::clear::CurrentLine)
}

} // verus!
