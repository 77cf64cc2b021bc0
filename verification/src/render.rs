//! Rendering helpers: row counting, the transcript as text, the layout of
//! the interface, and the terminal control sequences the agent prints.

pub mod cli;
pub mod text;
pub mod tui;

use vstd::prelude::*;
use crate::numbers::{decimal, push_decimal};

pub use text::count_lines_in_terminal;

verus! {

/// The control sequence that moves the cursor up `n` rows to the start of the
/// row and clears from there to the end of the screen, after a newline.
pub open spec fn clear_lines_sequence(n: nat) -> Seq<char> {
    "\n\x1B["@ + decimal(n) + "A\x1B[G\x1B[0J"@
}

/// The text to print to erase the `n` rows above the cursor (see
/// [`clear_lines_sequence`]).
pub fn clear_lines_above(n: usize) -> (r: String)
    ensures
        r@ == clear_lines_sequence(n as nat),
{
    let mut s = "\n\x1B[".to_owned();
    push_decimal(&mut s, n as u64);
    s.append("A\x1B[G\x1B[0J");
    s
}

} // verus!
