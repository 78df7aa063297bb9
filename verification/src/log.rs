//! The diagnostic log: one line for each thing worth telling, with the time
//! in front.
//!
//! The library reads no clock and writes no file. It puts the line together
//! from the time, which the caller has read and written out as text, and the
//! description; the caller appends the line to the log and goes on whether or
//! not that worked.

use vstd::prelude::*;
use vstd::string::StringExecFns;

verus! {

/// The line for a description written at a time: the time, a colon and a
/// space, the description, and a line feed.
pub open spec fn entry_text(timestamp: Seq<char>, description: Seq<char>) -> Seq<char> {
    timestamp + ": "@ + description + "\n"@
}

/// Puts together the line for a description written at a time that is given
/// as text.
pub fn log_entry(timestamp: &str, description: &str) -> (line: String)
    ensures
        line@ == entry_text(timestamp@, description@),
{
    let mut line = String::from_str(timestamp);
    line.append(": ");
    line.append(description);
    line.append("\n");
    line
}

} // verus!
