//! Resetting the statistics.

use crate::stats::Stats;
use vstd::prelude::*;

verus! {

/// Zeroes every counter and returns the values they held before.
pub fn handle(stats: &mut Stats) -> (r: Stats)
    ensures
        r == *old(stats),
        *final(stats) == (Stats { inserted: 0, deleted: 0, pruned: 0 }),
{
    let old_stats = *stats;
    stats.inserted = 0;
    stats.deleted = 0;
    stats.pruned = 0;
    old_stats
}

} // verus!
