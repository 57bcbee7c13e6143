//! Reading the configured group budgets.

use crate::index::{store_group_defaults_list, store_group_max};
use vstd::prelude::*;

verus! {

/// One configured group budget, as reported to clients.
#[derive(Debug, Clone, Copy, PartialEq, Eq, Structural)]
pub struct GroupDefaults {
    pub priority: u32,
    pub max_byte_size: Option<u32>,
}

/// The configured budget of the group for `priority`, or every configured
/// budget when no priority is given.
pub fn handle(
    store: &msg_store::store::Store,
    priority_option: Option<u32>,
) -> (r: Vec<GroupDefaults>)
    ensures
        forall|i: int|
            0 <= i < r@.len() ==> store_group_max(*store).contains_key(
                (#[trigger] r@[i]).priority,
            ) && store_group_max(*store)[r@[i].priority] == r@[i].max_byte_size,
        priority_option matches Some(p) ==> (forall|i: int|
            0 <= i < r@.len() ==> (#[trigger] r@[i]).priority == p) && (
        store_group_max(*store).contains_key(p) ==> r@.len() > 0),
        priority_option is None ==> forall|p: u32|
            store_group_max(*store).contains_key(p) ==> exists|i: int|
                0 <= i < r@.len() && (#[trigger] r@[i]).priority == p,
{
    let listed = store_group_defaults_list(store);
    let mut out: Vec<GroupDefaults> = Vec::new();
    let mut i: usize = 0;
    let n = listed.len();
    while i < n
        invariant
            0 <= i <= listed@.len(),
            n == listed@.len(),
            forall|k: int|
                0 <= k < listed@.len() ==> store_group_max(*store).contains_key(
                    (#[trigger] listed@[k]).0,
                ) && store_group_max(*store)[listed@[k].0] == listed@[k].1,
            forall|k: int|
                0 <= k < out@.len() ==> store_group_max(*store).contains_key(
                    (#[trigger] out@[k]).priority,
                ) && store_group_max(*store)[out@[k].priority] == out@[k].max_byte_size,
            priority_option matches Some(p) ==> (forall|k: int|
                0 <= k < out@.len() ==> (#[trigger] out@[k]).priority == p) && (out@.len() > 0
                <==> exists|k: int| 0 <= k < i && (#[trigger] listed@[k]).0 == p),
            priority_option is None ==> out@.len() == i && (forall|k: int|
                0 <= k < i ==> (#[trigger] out@[k]).priority == listed@[k].0),
        decreases n - i,
    {
        let (p, max) = listed[i];
        match priority_option {
            Some(want) => {
                if p == want {
                    out.push(GroupDefaults { priority: p, max_byte_size: max });
                }
                proof {
                    if out@.len() > 0 && !(exists|k: int|
                        0 <= k < i && (#[trigger] listed@[k]).0 == want)
                        && listed@[i as int].0 != want {
                        assert(false);
                    }
                }
            },
            None => {
                out.push(GroupDefaults { priority: p, max_byte_size: max });
            },
        }
        i = i + 1;
    }
    proof {
        if priority_option is Some {
            let p = priority_option->0;
            if store_group_max(*store).contains_key(p) {
                let j = choose|j: int| 0 <= j < listed@.len() && (#[trigger] listed@[j]).0 == p;
                assert(out@.len() > 0);
            }
        } else {
            assert forall|p: u32| store_group_max(*store).contains_key(p) implies exists|k: int|
                0 <= k < out@.len() && (#[trigger] out@[k]).priority == p by {
                let j = choose|j: int| 0 <= j < listed@.len() && (#[trigger] listed@[j]).0 == p;
                assert(out@[j].priority == p);
            }
        }
    }
    out
}

} // verus!
