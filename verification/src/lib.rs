pub mod addr;
pub mod dns;
pub mod lease;
pub mod log;
pub mod neigh;
pub mod pipeline;

use vstd::prelude::*;

verus! {

/// The netlink multicast-group bit for a given group identifier: group `0`
/// selects nothing, and group `g` (for `1 <= g <= 31`) selects bit `g - 1`.
pub fn nl_mgrp(group: u32) -> (r: u32)
    requires
        group <= 31,
    ensures
        r == if group == 0 { 0u32 } else { (1u32 << (group - 1) as u32) },
{
    if group == 0 {
        0
    } else {
        1u32 << (group - 1)
    }
}

} // verus!
