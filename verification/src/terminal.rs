//! What is said of the terminal a unit runs on, and what size one nobody has attached to is given.

use vstd::prelude::*;
use vstd::string::*;

verus! {

/// What a unit nobody has attached to is sized at. Zero is a real answer to `TIOCGWINSZ` and a
/// program that gets one draws for a screen nothing fits on.
pub const ROWS: u16 = 24;

pub const COLUMNS: u16 = 80;

/// The refusal to type at a unit that runs on pipes. Said in two places, by the popup refusing to
/// open a pane and by the daemon refusing to hand one over, so it is worded once.
pub fn runs_on_a_pipe(name: &str) -> (r: String)
    ensures
        r@ == name@ + " runs on a pipe; declare `tty = true` to type at it"@,
{
    let mut r = String::from_str(name);
    r.append(" runs on a pipe; declare `tty = true` to type at it");
    r
}

} // verus!
