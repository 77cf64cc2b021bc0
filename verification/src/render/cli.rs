//! Control sequences for the line-oriented output of the agent.

use vstd::prelude::*;
use crate::numbers::{decimal, push_decimal};

verus! {

/// The control sequence that moves the cursor to the start of the row `n`
/// rows up and clears from there to the end of the screen, after a newline.
pub open spec fn clear_lines_sequence(n: nat) -> Seq<char> {
    "\n\x1B["@ + decimal(n) + "F\x1B[0J"@
}

/// The text to print to erase the `n` rows above the cursor (see
/// [`clear_lines_sequence`]).
pub fn clear_lines_above(n: usize) -> (r: String)
    ensures
        r@ == clear_lines_sequence(n as nat),
{
    let mut s = "\n\x1B[".to_owned();
    push_decimal(&mut s, n as u64);
    s.append("F\x1B[0J");
    s
}

} // verus!
