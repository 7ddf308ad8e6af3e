//! Helpers for the host bindings layer, which has no `usize`.

use vstd::prelude::*;

verus! {

/// Route indices never approach `u32::MAX`; saturate rather than wrap so the
/// conversion can never be silently wrong.
pub fn index_to_u32(i: usize) -> (r: u32)
    ensures
        i <= u32::MAX ==> r == i,
        i > u32::MAX ==> r == u32::MAX,
{
    if i <= u32::MAX as usize {
        i as u32
    } else {
        u32::MAX
    }
}

} // verus!
