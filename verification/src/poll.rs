//! The poll loop's decision logic: each cycle is independent, and the
//! loop continues only in recurring mode with a non-zero interval.

use vstd::prelude::*;

verus! {

/// Whether another cycle follows the one that just completed: never in
/// one-shot mode, never with auto-refresh disabled.
pub fn continue_polling(once: bool, interval_secs: u64) -> (r: bool)
    ensures
        r == (!once && interval_secs != 0),
{
    !once && interval_secs != 0
}

} // verus!
