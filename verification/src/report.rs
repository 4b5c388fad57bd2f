//! Report text helpers.
//!
//! The report itself is printed by the surrounding program; the library
//! fixes the text pieces that carry meaning: the terminal highlight
//! wrapper for the value column and the exact message of a run that
//! produced no records.

use vstd::prelude::*;
use vstd::string::*;

verus! {

/// A value wrapped in the report's terminal highlight: bold green, then
/// back to the default style.
pub open spec fn styled(t: Seq<char>) -> Seq<char> {
    "\x1b[1;32m"@ + t + "\x1b[0m"@
}

/// Wraps a rendered value in the report's highlight escape codes.
pub fn style(text: &str) -> (s: String)
    ensures
        s@ == styled(text@),
{
    let s = String::from_str("\x1b[1;32m").concat(text).concat("\x1b[0m");
    proof {
        assert(s@ =~= styled(text@));
    }
    s
}

/// The message of a run that produced no records.
pub fn no_data_message() -> (s: String)
    ensures
        s@ == "No timing data available."@,
{
    String::from_str("No timing data available.")
}

} // verus!
