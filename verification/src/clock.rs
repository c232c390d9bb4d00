//! Points in time as nanoseconds.

use vstd::prelude::*;

verus! {

/// The nanoseconds since the epoch as the plugin counts them: the low 64 bits, and zero for a
/// time before the epoch.
pub fn now_ns(since_epoch: Option<u128>) -> (r: u64)
    ensures
        since_epoch matches Some(nanos) ==> r == nanos % 0x1_0000_0000_0000_0000,
        since_epoch is None ==> r == 0,
{
    match since_epoch {
        Some(nanos) => (nanos % 0x1_0000_0000_0000_0000) as u64,
        None => 0,
    }
}

} // verus!
