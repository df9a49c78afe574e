//! The keymap: one key press becomes at most one command.

use vstd::prelude::*;
use crate::round::is_lower_letter;

verus! {

/// What one key press asks for.
#[derive(Clone, Copy, Debug, PartialEq, Eq, Structural)]
pub enum Command {
    Quit,
    NewRound,
    ToggleStats,
    /// Guess the held lowercase letter.
    Guess(u8),
}

/// An uppercase ASCII letter.
pub open spec fn is_upper_char(c: char) -> bool {
    65 <= c as int && c as int <= 90
}

/// A lowercase ASCII letter.
pub open spec fn is_lower_char(c: char) -> bool {
    97 <= c as int && c as int <= 122
}

/// An ASCII letter of either case.
pub open spec fn is_ascii_letter(c: char) -> bool {
    is_upper_char(c) || is_lower_char(c)
}

/// The lowercase letter byte a letter key stands for.
pub open spec fn lower_byte_of(c: char) -> u8
    recommends
        is_ascii_letter(c),
{
    if is_upper_char(c) {
        (c as int + 32) as u8
    } else {
        (c as int) as u8
    }
}

/// The keymap.
///
/// Uppercase `Q` quits, uppercase `N` starts a new round, uppercase `S`
/// toggles the stats popup; any other ASCII letter, whatever its case, is
/// a lowercase guess; every other key does nothing.
pub fn map_key(c: char) -> (r: Option<Command>)
    ensures
        c == 'Q' ==> r == Option::Some(Command::Quit),
        c == 'N' ==> r == Option::Some(Command::NewRound),
        c == 'S' ==> r == Option::Some(Command::ToggleStats),
        (c != 'Q' && c != 'N' && c != 'S' && is_ascii_letter(c)) ==> r == Option::Some(
            Command::Guess(lower_byte_of(c)),
        ),
        !is_ascii_letter(c) ==> r is None,
        forall|b: u8| r == Option::Some(Command::Guess(b)) ==> is_lower_letter(b),
{
    if c == 'Q' {
        Option::Some(Command::Quit)
    } else if c == 'N' {
        Option::Some(Command::NewRound)
    } else if c == 'S' {
        Option::Some(Command::ToggleStats)
    } else {
        let u = c as u32;
        if u >= 65 && u <= 90 {
            Option::Some(Command::Guess((u + 32) as u8))
        } else if u >= 97 && u <= 122 {
            Option::Some(Command::Guess(u as u8))
        } else {
            Option::None
        }
    }
}

} // verus!
