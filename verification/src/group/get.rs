//! Reporting priority groups.

use crate::ids::MsgId;
use crate::index::{group_limit, restrict_at, store_contents, store_group_list, store_group_msgs,
    sum_sizes};
use vstd::prelude::*;

verus! {

/// One message of a group listing.
#[derive(Debug, Clone, Copy, PartialEq, Eq, Structural)]
pub struct Msg {
    pub uuid: MsgId,
    pub byte_size: u32,
}

/// One priority group as reported to clients.
pub struct Group {
    pub priority: u32,
    pub byte_size: u32,
    pub max_byte_size: Option<u32>,
    pub msg_count: u32,
    pub messages: Vec<Msg>,
}

/// A count as the report carries it: clamped into 32 bits.
pub open spec fn clamped_count(n: int) -> u32 {
    if n > u32::MAX {
        u32::MAX
    } else if n < 0 {
        0
    } else {
        n as u32
    }
}

/// What one reported group must say of the index: its configured budget, the
/// byte sum and (clamped) count of the messages held at its priority.
pub open spec fn reports_group(s: msg_store::store::Store, g: Group) -> bool {
    &&& g.max_byte_size == group_limit(s, g.priority)
    &&& g.byte_size as int == sum_sizes(restrict_at(store_contents(s), g.priority))
    &&& g.msg_count == clamped_count(restrict_at(store_contents(s), g.priority).dom().len() as int)
}

/// The messages of the group for `priority`, as [`Msg`] values. Every listed
/// message is held by the index under that priority with that byte size, and
/// every such message is listed.
pub fn group_messages(store: &msg_store::store::Store, priority: u32) -> (r: Vec<Msg>)
    ensures
        forall|i: int|
            0 <= i < r@.len() ==> store_contents(*store).contains_key((#[trigger] r@[i]).uuid)
                && store_contents(*store)[r@[i].uuid] == r@[i].byte_size && r@[i].uuid.priority
                == priority,
        forall|id: MsgId|
            store_contents(*store).contains_key(id) && id.priority == priority ==> exists|i: int|
                0 <= i < r@.len() && (#[trigger] r@[i]).uuid == id,
{
    let listed = store_group_msgs(store, priority);
    let mut out: Vec<Msg> = Vec::new();
    let mut i: usize = 0;
    let n = listed.len();
    while i < n
        invariant
            0 <= i <= listed@.len(),
            n == listed@.len(),
            out@.len() == i,
            forall|k: int|
                0 <= k < listed@.len() ==> store_contents(*store).contains_key(
                    (#[trigger] listed@[k]).0,
                ) && store_contents(*store)[listed@[k].0] == listed@[k].1 && listed@[k].0.priority
                    == priority,
            forall|k: int|
                0 <= k < i ==> (#[trigger] out@[k]) == (Msg {
                    uuid: listed@[k].0,
                    byte_size: listed@[k].1,
                }),
        decreases n - i,
    {
        let (uuid, byte_size) = listed[i];
        out.push(Msg { uuid, byte_size });
        i = i + 1;
    }
    proof {
        assert forall|id: MsgId|
            store_contents(*store).contains_key(id) && id.priority == priority implies exists|
            i: int,
        | 0 <= i < out@.len() && (#[trigger] out@[i]).uuid == id by {
            let j = choose|j: int| 0 <= j < listed@.len() && (#[trigger] listed@[j]).0 == id;
            assert(out@[j].uuid == id);
        }
    }
    out
}

/// Reports the group for `priority`, or every group when no priority is
/// given: its configured budget and the byte sum and count of its messages,
/// listed individually when `include_msg_data` asks for them. Every held
/// message's group appears, each group once.
pub fn handle(
    store: &msg_store::store::Store,
    priority_option: Option<u32>,
    include_msg_data: bool,
) -> (r: Vec<Group>)
    ensures
        forall|g: int| 0 <= g < r@.len() ==> reports_group(*store, #[trigger] r@[g]),
        forall|g: int, i: int|
            0 <= g < r@.len() && 0 <= i < (#[trigger] r@[g]).messages@.len()
                ==> store_contents(*store).contains_key((#[trigger] r@[g].messages@[i]).uuid)
                && store_contents(*store)[r@[g].messages@[i].uuid] == r@[g].messages@[i].byte_size
                && r@[g].messages@[i].uuid.priority == r@[g].priority,
        include_msg_data ==> forall|g: int, id: MsgId|
            0 <= g < r@.len() && (#[trigger] store_contents(*store).contains_key(id))
                && id.priority == (#[trigger] r@[g]).priority ==> exists|i: int|
                0 <= i < r@[g].messages@.len() && (#[trigger] r@[g].messages@[i]).uuid == id,
        !include_msg_data ==> forall|g: int|
            0 <= g < r@.len() ==> (#[trigger] r@[g]).messages@.len() == 0,
        forall|g: int, h: int|
            0 <= g < h < r@.len() ==> (#[trigger] r@[g]).priority != (#[trigger] r@[h]).priority,
        priority_option matches Some(p) ==> (forall|g: int|
            0 <= g < r@.len() ==> (#[trigger] r@[g]).priority == p) && ((exists|id: MsgId|
            store_contents(*store).contains_key(id) && id.priority == p) ==> r@.len() > 0),
        priority_option is None ==> forall|id: MsgId|
            store_contents(*store).contains_key(id) ==> exists|g: int|
                0 <= g < r@.len() && (#[trigger] r@[g]).priority == id.priority,
{
    let listed = store_group_list(store);
    let mut out: Vec<Group> = Vec::new();
    let mut i: usize = 0;
    let n = listed.len();
    while i < n
        invariant
            0 <= i <= listed@.len(),
            n == listed@.len(),
            forall|k: int|
                0 <= k < listed@.len() ==> (#[trigger] listed@[k]).max_byte_size == group_limit(
                    *store,
                    listed@[k].priority,
                ) && listed@[k].byte_size as int == sum_sizes(
                    restrict_at(store_contents(*store), listed@[k].priority),
                ) && listed@[k].msg_count as int == restrict_at(
                    store_contents(*store),
                    listed@[k].priority,
                ).dom().len(),
            forall|k: int, l: int|
                0 <= k < l < listed@.len() ==> (#[trigger] listed@[k]).priority != (
                #[trigger] listed@[l]).priority,
            forall|g: int| 0 <= g < out@.len() ==> reports_group(*store, #[trigger] out@[g]),
            forall|g: int, m: int|
                0 <= g < out@.len() && 0 <= m < (#[trigger] out@[g]).messages@.len()
                    ==> store_contents(*store).contains_key(
                    (#[trigger] out@[g].messages@[m]).uuid,
                ) && store_contents(*store)[out@[g].messages@[m].uuid]
                    == out@[g].messages@[m].byte_size && out@[g].messages@[m].uuid.priority
                    == out@[g].priority,
            include_msg_data ==> forall|g: int, id: MsgId|
                0 <= g < out@.len() && (#[trigger] store_contents(*store).contains_key(id))
                    && id.priority == (#[trigger] out@[g]).priority ==> exists|m: int|
                    0 <= m < out@[g].messages@.len() && (#[trigger] out@[g].messages@[m]).uuid
                        == id,
            !include_msg_data ==> forall|g: int|
                0 <= g < out@.len() ==> (#[trigger] out@[g]).messages@.len() == 0,
            priority_option matches Some(p) ==> (forall|g: int|
                0 <= g < out@.len() ==> (#[trigger] out@[g]).priority == p) && (out@.len() > 0
                <==> exists|k: int| 0 <= k < i && (#[trigger] listed@[k]).priority == p)
                && out@.len() <= 1,
            priority_option is None ==> out@.len() == i && (forall|k: int|
                0 <= k < i ==> (#[trigger] out@[k]).priority == listed@[k].priority),
        decreases n - i,
    {
        let view = listed[i];
        let wanted = match priority_option {
            Some(p) => view.priority == p,
            None => true,
        };
        if wanted {
            let messages = if include_msg_data {
                group_messages(store, view.priority)
            } else {
                Vec::new()
            };
            let msg_count = if view.msg_count > u32::MAX as usize {
                u32::MAX
            } else {
                view.msg_count as u32
            };
            proof {
                if priority_option is Some && out@.len() > 0 {
                    let k = choose|k: int|
                        0 <= k < i && (#[trigger] listed@[k]).priority == priority_option->0;
                    assert(listed@[k].priority != listed@[i as int].priority);
                    assert(false);
                }
            }
            let ghost out_before = out@;
            let ghost msgs_view = messages@;
            out.push(
                Group {
                    priority: view.priority,
                    byte_size: view.byte_size,
                    max_byte_size: view.max_byte_size,
                    msg_count,
                    messages,
                },
            );
            proof {
                assert(out@[out@.len() - 1].messages@ == msgs_view);
                if include_msg_data {
                    assert forall|g: int, id: MsgId|
                        0 <= g < out@.len() && (#[trigger] store_contents(*store).contains_key(id))
                            && id.priority == (#[trigger] out@[g]).priority implies exists|m: int|
                        0 <= m < out@[g].messages@.len() && (#[trigger] out@[g].messages@[m]).uuid
                            == id by {
                        if g < out@.len() - 1 {
                            assert(out@[g] == out_before[g]);
                        } else {
                            assert(out@[g].priority == view.priority);
                            let m = choose|m: int|
                                0 <= m < msgs_view.len() && (#[trigger] msgs_view[m]).uuid == id;
                            assert(out@[g].messages@[m].uuid == id);
                        }
                    }
                }
            }
        }
        proof {
            if priority_option is Some && out@.len() > 0 && !(exists|k: int|
                0 <= k < i && (#[trigger] listed@[k]).priority == priority_option->0) && !wanted {
                assert(false);
            }
        }
        i = i + 1;
    }
    proof {
        match priority_option {
            Some(p) => {
                if exists|id: MsgId|
                    store_contents(*store).contains_key(id) && id.priority == p {
                    let id = choose|id: MsgId|
                        store_contents(*store).contains_key(id) && id.priority == p;
                    let k = choose|k: int|
                        0 <= k < listed@.len() && (#[trigger] listed@[k]).priority == id.priority;
                    assert(out@.len() > 0);
                }
            },
            None => {
                assert forall|id: MsgId|
                    store_contents(*store).contains_key(id) implies exists|g: int|
                    0 <= g < out@.len() && (#[trigger] out@[g]).priority == id.priority by {
                    let k = choose|k: int|
                        0 <= k < listed@.len() && (#[trigger] listed@[k]).priority == id.priority;
                    assert(out@[k].priority == id.priority);
                }
            },
        }
    }
    out
}

} // verus!
