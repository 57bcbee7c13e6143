//! Removing one group's configured byte budget.

use crate::config::StoreConfig;
use crate::config::groups_without;
use crate::index::{store_contents, store_delete_group_defaults, store_group_max, store_max};
use vstd::prelude::*;

verus! {

/// Drops the configured budget of the group for `priority` and takes the
/// entry out of the configuration's group list. No message is touched; the
/// caller persists the configuration.
pub fn handle(
    store: &mut msg_store::store::Store,
    config: &mut StoreConfig,
    priority: u32,
)
    ensures
        store_contents(*final(store)) == store_contents(*old(store)),
        store_max(*final(store)) == store_max(*old(store)),
        store_group_max(*final(store)) == store_group_max(*old(store)).remove(priority),
        match old(config).groups {
            Some(g) => final(config).groups matches Some(g2) && g2@ == groups_without(
                g@,
                priority,
            ),
            None => final(config).groups is None,
        },
{
    store_delete_group_defaults(store, priority);
    config.remove_group(priority);
}

} // verus!
