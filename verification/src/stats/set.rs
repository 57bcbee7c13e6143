//! Adjusting the statistics by hand: adding to or replacing each counter.

use crate::stats::Stats;
use crate::stats::counted;
use vstd::prelude::*;

verus! {

/// Bumps each counter by the given amount where one is given; returns the
/// counters as they were before.
pub fn add_to_stats(
    stats: &mut Stats,
    inserted: Option<u32>,
    deleted: Option<u32>,
    pruned: Option<u32>,
) -> (r: Stats)
    ensures
        r == *old(stats),
        final(stats).inserted == counted(
            old(stats).inserted,
            if inserted is Some { inserted->0 as int } else { 0 },
        ),
        final(stats).deleted == counted(
            old(stats).deleted,
            if deleted is Some { deleted->0 as int } else { 0 },
        ),
        final(stats).pruned == counted(
            old(stats).pruned,
            if pruned is Some { pruned->0 as int } else { 0 },
        ),
{
    let old_stats = *stats;
    if let Some(n) = inserted {
        stats.inserted = stats.inserted.saturating_add(n);
    }
    if let Some(n) = deleted {
        stats.deleted = stats.deleted.saturating_add(n);
    }
    if let Some(n) = pruned {
        stats.pruned = stats.pruned.saturating_add(n);
    }
    old_stats
}

/// Overwrites each counter where a value is given; returns the counters as
/// they were before.
pub fn replace_stats(
    stats: &mut Stats,
    inserted: Option<u32>,
    deleted: Option<u32>,
    pruned: Option<u32>,
) -> (r: Stats)
    ensures
        r == *old(stats),
        final(stats).inserted == if inserted is Some { inserted->0 } else { old(stats).inserted },
        final(stats).deleted == if deleted is Some { deleted->0 } else { old(stats).deleted },
        final(stats).pruned == if pruned is Some { pruned->0 } else { old(stats).pruned },
{
    let old_stats = *stats;
    if let Some(n) = inserted {
        stats.inserted = n;
    }
    if let Some(n) = deleted {
        stats.deleted = n;
    }
    if let Some(n) = pruned {
        stats.pruned = n;
    }
    old_stats
}

/// Adds to the counters when `add` is set, otherwise replaces them.
pub fn handle(
    stats: &mut Stats,
    add: bool,
    inserted: Option<u32>,
    deleted: Option<u32>,
    pruned: Option<u32>,
) -> (r: Stats)
    ensures
        r == *old(stats),
        add ==> final(stats).inserted == counted(
            old(stats).inserted,
            if inserted is Some { inserted->0 as int } else { 0 },
        ) && final(stats).deleted == counted(
            old(stats).deleted,
            if deleted is Some { deleted->0 as int } else { 0 },
        ) && final(stats).pruned == counted(
            old(stats).pruned,
            if pruned is Some { pruned->0 as int } else { 0 },
        ),
        !add ==> final(stats).inserted == (if inserted is Some {
            inserted->0
        } else {
            old(stats).inserted
        }) && final(stats).deleted == (if deleted is Some {
            deleted->0
        } else {
            old(stats).deleted
        }) && final(stats).pruned == (if pruned is Some {
            pruned->0
        } else {
            old(stats).pruned
        }),
{
    if add {
        add_to_stats(stats, inserted, deleted, pruned)
    } else {
        replace_stats(stats, inserted, deleted, pruned)
    }
}

} // verus!
