//! Narrow, auditable integer conversions.
use vstd::prelude::*;

verus! {

/// Widen a `u32` to `usize`. Lossless on every target Verus admits
/// (`usize` has at least 32 bits).
pub fn u32_to_usize(x: u32) -> (res: usize)
    ensures
        res == x,
{
    x as usize
}

/// Narrow a `usize` to `u32`, saturating at `u32::MAX`.
pub fn usize_to_u32_sat(x: usize) -> (res: u32)
    ensures
        res == if x > u32::MAX { u32::MAX as int } else { x as int },
{
    if x > u32::MAX as usize {
        u32::MAX
    } else {
        x as u32
    }
}

} // verus!
