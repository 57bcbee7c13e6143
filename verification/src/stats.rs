//! Running statistics of the store.
//!
//! `inserted` counts successful ingestions, `deleted` counts client-initiated
//! removals (including an insert's eviction cascade), and `pruned` counts
//! removals caused by a capacity or policy change. The counters saturate at
//! the top of their range instead of overflowing.

pub mod get;
pub mod rm;
pub mod set;

use vstd::prelude::*;

verus! {

/// The value a counter holds after `n` more events: it grows by `n` but
/// never past `u32::MAX`.
pub open spec fn counted(c: u32, n: int) -> u32 {
    if c + n > u32::MAX {
        u32::MAX
    } else {
        (c + n) as u32
    }
}

#[derive(Debug, Clone, Copy, PartialEq, Eq, Structural)]
pub struct Stats {
    pub inserted: u32,
    pub deleted: u32,
    pub pruned: u32,
}

impl Stats {
    /// A fresh counter set, all zero.
    pub fn new() -> (r: Stats)
        ensures
            r == (Stats { inserted: 0, deleted: 0, pruned: 0 }),
    {
        Stats { inserted: 0, deleted: 0, pruned: 0 }
    }

    /// Bumps each counter by the given amount, saturating at `u32::MAX`.
    pub fn add(&mut self, inserted: u32, deleted: u32, pruned: u32)
        ensures
            final(self).inserted == counted(old(self).inserted, inserted as int),
            final(self).deleted == counted(old(self).deleted, deleted as int),
            final(self).pruned == counted(old(self).pruned, pruned as int),
    {
        self.inserted = self.inserted.saturating_add(inserted);
        self.deleted = self.deleted.saturating_add(deleted);
        self.pruned = self.pruned.saturating_add(pruned);
    }

    /// Overwrites every counter with the given values.
    pub fn replace(&mut self, inserted: u32, deleted: u32, pruned: u32)
        ensures
            *final(self) == (Stats { inserted, deleted, pruned }),
    {
        self.inserted = inserted;
        self.deleted = deleted;
        self.pruned = pruned;
    }
}

} // verus!
