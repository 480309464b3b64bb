//! How many lookups of one directory may be in flight at once.

use vstd::prelude::*;

verus! {

/// The bound on concurrent lookups for a directory of `entry_count` entries:
/// one more than the number of entries, capped at the largest `usize`.
pub open spec fn spec_fan_out_limit(entry_count: nat) -> nat {
    if entry_count < usize::MAX {
        entry_count + 1
    } else {
        usize::MAX as nat
    }
}

/// Computes the bound on concurrent lookups for one directory level. Every
/// sibling fits under it, so all of them may be in flight together.
pub fn fan_out_limit(entry_count: usize) -> (limit: usize)
    ensures
        limit == spec_fan_out_limit(entry_count as nat),
        limit > 0,
        entry_count < usize::MAX ==> limit > entry_count,
{
    entry_count.saturating_add(1)
}

} // verus!
