//! A program that repeats the lines that it reads.

use vstd::prelude::*;
use crate::text::{same, trim, trimmed};

verus! {

/// What becomes of a line: the program ends on `quit`, and repeats every other line.
pub fn answer(line: &str) -> (r: (String, bool))
    ensures
        if trimmed(line@) == "quit"@ {
            r.0@ == "WT_READLINE_BYE"@ && r.1
        } else {
            r.0@ == "STDIN_ECHO:"@ + line@ && !r.1
        },
{
    if same(trim(line).as_str(), "quit") {
        (String::from_str("WT_READLINE_BYE"), true)
    } else {
        (String::from_str("STDIN_ECHO:").concat(line), false)
    }
}

} // verus!
