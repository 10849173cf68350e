//! "Start with Windows": the autostart entry launches the app with a flag
//! that keeps its window hidden at login.

use vstd::prelude::*;

verus! {

/// Passed to the executable by the autostart entry.
pub const MINIMIZED_FLAG: &'static str = "--minimized";

/// Whether an argument list carries [`MINIMIZED_FLAG`], i.e. whether the
/// process was started by the autostart entry and keeps its window hidden.
pub fn args_are_minimized(args: &[&str]) -> (b: bool)
    ensures
        b == exists|i: int| 0 <= i < args@.len() && #[trigger] args@[i]@ == MINIMIZED_FLAG@,
{
    let mut i: usize = 0;
    while i < args.len()
        invariant
            i <= args@.len(),
            forall|k: int| 0 <= k < i ==> #[trigger] args@[k]@ != MINIMIZED_FLAG@,
        decreases args.len() - i,
    {
        if crate::text::str_eq(args[i], MINIMIZED_FLAG) {
            return true;
        }
        i = i + 1;
    }
    false
}

} // verus!
