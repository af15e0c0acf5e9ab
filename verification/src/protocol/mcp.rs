//! The Model Context Protocol.
use vstd::prelude::*;

verus! {

/// The method that calls a tool.
pub open spec fn tools_call() -> Seq<char> {
    "tools/call"@
}

/// Whether a method is the one that calls a tool.
pub fn is_tools_call(method: &str) -> (r: bool)
    ensures
        r == (method@ == tools_call()),
{
    *method == *"tools/call"
}

} // verus!
