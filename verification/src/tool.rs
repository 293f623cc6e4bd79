use vstd::prelude::*;

verus! {

/// Diagnostic printing hook. It prints nothing and reports that no message was
/// written, in every build: the printing that debug builds of the command-line
/// tool did is output, which this library does not perform.
pub fn debug_print(msg: &str) -> (printed: bool)
    ensures
        !printed,
{
    let _ = msg;
    false
}

} // verus!
