//! Transpiler for a line-oriented replay description: a header block naming a
//! player and a difficulty level, followed by timestamped directional inputs,
//! re-encoded as a single length-prefixed delimited string.

use vstd::prelude::*;

pub mod digits;
pub mod encode;
pub mod movement;
pub mod parser;
pub mod text;

verus! {

/// Input path used when the caller names none.
pub fn default_input() -> (r: String)
    ensures
        r@ == "appelinput.txt"@,
{
    String::from_str("appelinput.txt")
}

} // verus!
