//! What the compiler of programs decides before it compiles.

use vstd::prelude::*;
use crate::text::same;

verus! {

/// Whether compiled code may use a feature of the processor: a fixed set, so that what is
/// compiled on one machine runs on another.
pub fn feature_policy(feature: &str) -> (r: Option<bool>)
    ensures
        r == Some(feature@ == "sse3"@ || feature@ == "ssse3"@ || feature@ == "sse4.1"@ || feature@ == "sse4.2"@),
{
    Some(same(feature, "sse3") || same(feature, "ssse3") || same(feature, "sse4.1") || same(feature, "sse4.2"))
}

/// What is to be compiled, by the places of its arguments.
#[derive(Clone, Copy, PartialEq, Eq, Structural, Debug)]
pub struct Job {
    pub component: bool,
    pub input: usize,
    pub output: usize,
}

/// Reads the arguments, the program's own name first: two paths, or a flag and two paths.
pub fn parse_job(args: &Vec<String>) -> (r: Option<Job>)
    ensures
        r == if args@.len() == 3 {
            Some(Job { component: false, input: 1, output: 2 })
        } else if args@.len() == 4 && args@[1]@ == "--component"@ {
            Some(Job { component: true, input: 2, output: 3 })
        } else {
            None
        },
{
    if args.len() == 3 {
        return Some(Job { component: false, input: 1, output: 2 });
    }
    if args.len() == 4 && same(args[1].as_str(), "--component") {
        return Some(Job { component: true, input: 2, output: 3 });
    }
    None
}

} // verus!
