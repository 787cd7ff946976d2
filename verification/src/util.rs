//! Offsets on their way to the operating system.

use vstd::prelude::*;

verus! {

/// The offset as the operating system takes it, or `None` beyond 64 bits.
pub fn u128_to_u64_safe(x: u128) -> (r: Option<u64>)
    ensures
        x <= u64::MAX ==> r == Some(x as u64),
        x > u64::MAX ==> r is None,
{
    if x <= u64::MAX as u128 {
        Some(x as u64)
    } else {
        None
    }
}

} // verus!
