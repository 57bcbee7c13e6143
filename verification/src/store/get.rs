//! Reporting the store's state.

use crate::ids::MsgId;
use crate::index::{group_limit, restrict_at, store_byte_size, store_contents,
    store_group_defaults_list, store_group_list, store_group_max, store_max, store_max_byte_size,
    store_msg_count, store_total, sum_sizes};
use vstd::prelude::*;

verus! {

/// One configured group budget, in the store report.
#[derive(Debug, Clone, Copy, PartialEq, Eq, Structural)]
pub struct GroupDefaults {
    pub priority: u32,
    pub max_byte_size: Option<u32>,
}

/// One live group, in the store report.
#[derive(Debug, Clone, Copy, PartialEq, Eq, Structural)]
pub struct GroupData {
    pub priority: u32,
    pub byte_size: u32,
    pub max_byte_size: Option<u32>,
    pub msg_count: usize,
}

/// The whole store's state, as reported to clients.
pub struct StoreData {
    pub byte_size: u32,
    pub max_byte_size: Option<u32>,
    pub msg_count: usize,
    pub group_count: usize,
    pub groups: Vec<GroupData>,
    pub group_defaults: Vec<GroupDefaults>,
}

/// What one reported group must say of the index: its configured budget and
/// the byte sum and count of the messages held at its priority.
pub open spec fn reports_group_data(s: msg_store::store::Store, g: GroupData) -> bool {
    &&& g.max_byte_size == group_limit(s, g.priority)
    &&& g.byte_size as int == sum_sizes(restrict_at(store_contents(s), g.priority))
    &&& g.msg_count as int == restrict_at(store_contents(s), g.priority).dom().len()
}

/// Reports the store's byte count, budget, message and group counts, its
/// live groups and its configured group budgets: each group with its exact
/// budget, byte sum and message count, every held message's group listed
/// once, and the configured budgets complete.
pub fn handle(store: &msg_store::store::Store) -> (r: StoreData)
    ensures
        r.byte_size == store_total(*store),
        r.max_byte_size == store_max(*store),
        r.group_count == r.groups@.len(),
        forall|i: int| 0 <= i < r.groups@.len() ==> reports_group_data(*store, #[trigger] r.groups@[i]),
        forall|i: int, j: int|
            0 <= i < j < r.groups@.len() ==> (#[trigger] r.groups@[i]).priority != (
            #[trigger] r.groups@[j]).priority,
        forall|id: MsgId|
            store_contents(*store).contains_key(id) ==> exists|i: int|
                0 <= i < r.groups@.len() && (#[trigger] r.groups@[i]).priority == id.priority,
        forall|i: int|
            0 <= i < r.group_defaults@.len() ==> store_group_max(*store).contains_key(
                (#[trigger] r.group_defaults@[i]).priority,
            ) && store_group_max(*store)[r.group_defaults@[i].priority]
                == r.group_defaults@[i].max_byte_size,
        forall|p: u32|
            store_group_max(*store).contains_key(p) ==> exists|i: int|
                0 <= i < r.group_defaults@.len() && (#[trigger] r.group_defaults@[i]).priority
                    == p,
{
    let listed = store_group_list(store);
    let mut groups: Vec<GroupData> = Vec::new();
    let mut i: usize = 0;
    let n = listed.len();
    while i < n
        invariant
            0 <= i <= listed@.len(),
            n == listed@.len(),
            groups@.len() == i,
            forall|k: int|
                0 <= k < listed@.len() ==> (#[trigger] listed@[k]).max_byte_size == group_limit(
                    *store,
                    listed@[k].priority,
                ) && listed@[k].byte_size as int == sum_sizes(
                    restrict_at(store_contents(*store), listed@[k].priority),
                ) && listed@[k].msg_count as int == restrict_at(
                    store_contents(*store),
                    listed@[k].priority,
                ).dom().len(),
            forall|k: int, l: int|
                0 <= k < l < listed@.len() ==> (#[trigger] listed@[k]).priority != (
                #[trigger] listed@[l]).priority,
            forall|k: int|
                0 <= k < i ==> (#[trigger] groups@[k]) == (GroupData {
                    priority: listed@[k].priority,
                    byte_size: listed@[k].byte_size,
                    max_byte_size: listed@[k].max_byte_size,
                    msg_count: listed@[k].msg_count,
                }),
        decreases n - i,
    {
        let view = listed[i];
        groups.push(
            GroupData {
                priority: view.priority,
                byte_size: view.byte_size,
                max_byte_size: view.max_byte_size,
                msg_count: view.msg_count,
            },
        );
        i = i + 1;
    }
    proof {
        assert forall|id: MsgId| store_contents(*store).contains_key(id) implies exists|k: int|
            0 <= k < groups@.len() && (#[trigger] groups@[k]).priority == id.priority by {
            let j = choose|j: int|
                0 <= j < listed@.len() && (#[trigger] listed@[j]).priority == id.priority;
            assert(groups@[j].priority == id.priority);
        }
    }
    let defaults_listed = store_group_defaults_list(store);
    let mut group_defaults: Vec<GroupDefaults> = Vec::new();
    let mut j: usize = 0;
    let m = defaults_listed.len();
    while j < m
        invariant
            0 <= j <= defaults_listed@.len(),
            m == defaults_listed@.len(),
            group_defaults@.len() == j,
            forall|k: int|
                0 <= k < defaults_listed@.len() ==> store_group_max(*store).contains_key(
                    (#[trigger] defaults_listed@[k]).0,
                ) && store_group_max(*store)[defaults_listed@[k].0] == defaults_listed@[k].1,
            forall|k: int|
                0 <= k < j ==> (#[trigger] group_defaults@[k]) == (GroupDefaults {
                    priority: defaults_listed@[k].0,
                    max_byte_size: defaults_listed@[k].1,
                }),
        decreases m - j,
    {
        let (priority, max_byte_size) = defaults_listed[j];
        group_defaults.push(GroupDefaults { priority, max_byte_size });
        j = j + 1;
    }
    proof {
        assert forall|p: u32| store_group_max(*store).contains_key(p) implies exists|k: int|
            0 <= k < group_defaults@.len() && (#[trigger] group_defaults@[k]).priority == p by {
            let t = choose|t: int|
                0 <= t < defaults_listed@.len() && (#[trigger] defaults_listed@[t]).0 == p;
            assert(group_defaults@[t].priority == p);
        }
    }
    let group_count = groups.len();
    StoreData {
        byte_size: store_byte_size(store),
        max_byte_size: store_max_byte_size(store),
        msg_count: store_msg_count(store),
        group_count,
        groups,
        group_defaults,
    }
}

} // verus!
