//! Per-group byte budgets: reading, setting and removing the configured
//! ceiling of one priority group.

pub mod get;
pub mod rm;
pub mod set;

use crate::ids::MsgId;
use vstd::prelude::*;

verus! {

/// What a capacity change produced: the ids the priority index pruned, and
/// among them the ids whose blob files the caller must remove from disk.
pub struct PruneOutcome {
    pub evicted: Vec<MsgId>,
    pub removed_files: Vec<MsgId>,
}

} // verus!
