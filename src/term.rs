//! Terminal control sequences.

use vstd::prelude::*;
use crate::text::decimal;

verus! {

/// The escape sequence that moves the cursor to column `x`, row `y`,
/// both counted from 1.
pub open spec fn goto_spec(x: u16, y: u16) -> Seq<char> {
    seq!['\x1b', '['] + decimal(y as nat) + seq![';'] + decimal(x as nat) + seq!['H']
}

/// The escape sequence that clears the whole screen.
pub open spec fn clear_all_spec() -> Seq<char> {
    seq!['\x1b', '[', '2', 'J']
}

/// Relies on `termion::cursor::Goto` converted into a `String`: ESC `[`,
/// the row and the column in decimal, separated by `;`, then `H`.
#[verifier::external_body]
pub(crate) fn goto(x: u16, y: u16) -> (r: String)
    requires
        x >= 1,
        y >= 1,
    ensures
        r@ == goto_spec(x, y),
{
    String::from(termion::cursor::Goto(x, y))
}

/// Relies on `termion::clear::All` as a `str`: ESC `[2J`.
#[verifier::external_body]
pub(crate) fn clear_all() -> (r: String)
    ensures
        r@ == clear_all_spec(),
{
    let s: &str = termion::clear::All.as_ref();
    String::from(s)
}

} // verus!
