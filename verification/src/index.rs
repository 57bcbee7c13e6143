//! The priority index: the outside `msg_store` crate's `Store`.
//!
//! The index is the admission authority. It holds, per message id, the byte
//! size the message is accounted with; it enforces the store-wide and
//! per-group byte budgets and decides eviction victims. This module declares
//! the outside type, names what it holds, and wraps each method the
//! coordination layer calls with the contract its source shows. Nothing else
//! in the crate touches `msg_store` directly.

use crate::ids::MsgId;
use vstd::prelude::*;

verus! {

#[verifier::external_type_specification]
#[verifier::external_body]
pub struct ExStore(msg_store::store::Store);

/// The messages the priority index holds: each admitted id, mapped to the
/// byte size it is accounted with. Every wrapper below states its effect
/// over this map.
pub uninterp spec fn store_contents(s: msg_store::store::Store) -> Map<MsgId, u32>;

/// The store-wide byte budget the index enforces, when one is set.
pub uninterp spec fn store_max(s: msg_store::store::Store) -> Option<u32>;

/// The configured per-group byte budgets, by priority.
pub uninterp spec fn store_group_max(s: msg_store::store::Store) -> Map<u32, Option<u32>>;

/// The running byte total the index accounts with: its `byte_size` field, a
/// 32-bit counter the store keeps in balance with the byte sizes of the
/// messages it holds.
pub uninterp spec fn store_total(s: msg_store::store::Store) -> u32;

/// The bytes a size map accounts for, summed over its (finite) domain.
pub open spec fn sum_sizes(m: Map<MsgId, u32>) -> int
    decreases m.dom().len(),
    when m.dom().finite()
    via sum_sizes_dec
{
    if m.dom().len() == 0 {
        0
    } else {
        let id = m.dom().choose();
        m[id] + sum_sizes(m.remove(id))
    }
}

#[via_fn]
proof fn sum_sizes_dec(m: Map<MsgId, u32>) {
    if m.dom().finite() && m.dom().len() != 0 {
        if m.dom() =~= Set::<MsgId>::empty() {
            assert(m.dom().len() == 0);
        }
        assert(exists|x: MsgId| m.dom().contains(x)) by {
            if forall|x: MsgId| !m.dom().contains(x) {
                assert(m.dom() =~= Set::<MsgId>::empty());
            }
        }
        assert(m.dom().contains(m.dom().choose()));
        assert(m.remove(m.dom().choose()).dom() =~= m.dom().remove(m.dom().choose()));
    }
}

/// The part of the contents held at priorities strictly above `p`.
pub open spec fn restrict_above(c: Map<MsgId, u32>, p: u32) -> Map<MsgId, u32> {
    Map::new(|id: MsgId| c.contains_key(id) && id.priority > p, |id: MsgId| c[id])
}

/// The bytes held at priorities strictly above `p`.
pub open spec fn higher_bytes(c: Map<MsgId, u32>, p: u32) -> int {
    sum_sizes(restrict_above(c, p))
}

/// The part of the contents held exactly at priority `p`.
pub open spec fn restrict_at(c: Map<MsgId, u32>, p: u32) -> Map<MsgId, u32> {
    Map::new(|id: MsgId| c.contains_key(id) && id.priority == p, |id: MsgId| c[id])
}

/// The byte budget that applies to the group of `p`: the configured entry's
/// value, or none. The index keeps each live group's own ceiling equal to
/// this entry.
pub open spec fn group_limit(s: msg_store::store::Store, p: u32) -> Option<u32> {
    if store_group_max(s).contains_key(p) {
        store_group_max(s)[p]
    } else {
        None
    }
}

/// The admission conflicts, in the order the index checks them. First: the
/// message alone is larger than the store's budget.
pub open spec fn exceeds_store_max(s: msg_store::store::Store, byte_size: u32) -> bool {
    store_max(s) matches Some(m) && byte_size > m
}

/// Second: the message alone is larger than its group's budget.
pub open spec fn exceeds_group_max(s: msg_store::store::Store, priority: u32, byte_size: u32) -> bool {
    &&& !exceeds_store_max(s, byte_size)
    &&& group_limit(s, priority) matches Some(g) && byte_size > g
}

/// Third: the store is full and the bytes held at higher priorities alone
/// leave no room, so nothing this message may evict would free enough.
pub open spec fn lacks_priority(s: msg_store::store::Store, priority: u32, byte_size: u32) -> bool {
    &&& !exceeds_store_max(s, byte_size)
    &&& !exceeds_group_max(s, priority, byte_size)
    &&& store_max(s) matches Some(m) && higher_bytes(store_contents(s), priority) + byte_size > m
}

/// `m` with every id of `ids` removed.
pub open spec fn remove_all<V>(m: Map<MsgId, V>, ids: Seq<MsgId>) -> Map<MsgId, V>
    decreases ids.len(),
{
    if ids.len() == 0 {
        m
    } else {
        remove_all(m, ids.drop_last()).remove(ids.last())
    }
}

/// Membership in `remove_all`: an id survives exactly when it is not among
/// the removed ones, with its value kept.
pub proof fn lemma_remove_all<V>(m: Map<MsgId, V>, ids: Seq<MsgId>, x: MsgId)
    ensures
        remove_all(m, ids).contains_key(x) <==> (m.contains_key(x) && !ids.contains(x)),
        remove_all(m, ids).contains_key(x) ==> remove_all(m, ids)[x] == m[x],
    decreases ids.len(),
{
    if ids.len() > 0 {
        lemma_remove_all(m, ids.drop_last(), x);
        if ids.contains(x) {
            let i = choose|i: int| 0 <= i < ids.len() && ids[i] == x;
            if i < ids.len() - 1 {
                assert(ids.drop_last()[i] == x);
            }
        }
        if ids.drop_last().contains(x) {
            let i = choose|i: int| 0 <= i < ids.drop_last().len() && ids.drop_last()[i] == x;
            assert(ids[i] == x);
        }
    }
}

/// `s` with every id of `ids` removed.
pub open spec fn remove_set(s: Set<MsgId>, ids: Seq<MsgId>) -> Set<MsgId>
    decreases ids.len(),
{
    if ids.len() == 0 {
        s
    } else {
        remove_set(s, ids.drop_last()).remove(ids.last())
    }
}

/// Membership in `remove_set`: an id survives exactly when it is not among
/// the removed ones.
pub proof fn lemma_remove_set(s: Set<MsgId>, ids: Seq<MsgId>, x: MsgId)
    ensures
        remove_set(s, ids).contains(x) <==> (s.contains(x) && !ids.contains(x)),
    decreases ids.len(),
{
    if ids.len() > 0 {
        lemma_remove_set(s, ids.drop_last(), x);
        if ids.contains(x) {
            let i = choose|i: int| 0 <= i < ids.len() && ids[i] == x;
            if i < ids.len() - 1 {
                assert(ids.drop_last()[i] == x);
            }
        }
        if ids.drop_last().contains(x) {
            let i = choose|i: int| 0 <= i < ids.drop_last().len() && ids.drop_last()[i] == x;
            assert(ids[i] == x);
        }
    }
}

/// The admission conflicts the priority index reports: the message is larger
/// than the store's budget, larger than its group's budget, or the store is
/// full and the message's priority is too low to evict anything. `Sync`
/// marks an index whose internal books disagree.
#[derive(Debug, Clone, Copy, PartialEq, Eq, Structural)]
pub enum StoreErr {
    ExceedesStoreMax,
    ExceedesGroupMax,
    LacksPriority,
    Sync,
}

/// A fresh, empty priority index with no byte budget.
/// Relies on `Store::new`: all maps start empty, no budget set.
#[verifier::external_body]
pub fn store_new() -> (r: msg_store::store::Store)
    ensures
        store_contents(r) =~= Map::empty(),
        store_max(r) == None::<u32>,
        store_group_max(r) =~= Map::empty(),
        store_total(r) == 0,
{
    msg_store::store::Store::new()
}

/// Asks the index to admit a message of `byte_size` under `priority`.
/// Relies on `Store::add`: the admission checks come in a fixed order —
/// message larger than the store's budget, larger than its group's budget,
/// store too full for this priority — and a conflict leaves the index as it
/// was. On success it mints an id carrying the priority and evicts victims,
/// each previously held; but the returned list is incomplete: the store-wide
/// prune discards what its final pass takes from the target group itself, so
/// the ensures only places those unnamed removals at the admitted priority.
/// The caller recovers them by listing the group around the call. The minted
/// id depends on the clock, so nothing more is said of it. The byte
/// accounting is 32-bit arithmetic; the requires keeps it from overflowing.
#[verifier::external_body]
pub(crate) fn store_add(s: &mut msg_store::store::Store, priority: u32, byte_size: u32) -> (r: Result<
    (MsgId, Vec<MsgId>),
    StoreErr,
>)
    requires
        store_total(*old(s)) + byte_size <= u32::MAX,
    ensures
        match r {
            Ok((id, evicted)) => id.priority == priority && !exceeds_store_max(*old(s), byte_size)
                && !exceeds_group_max(*old(s), priority, byte_size) && !lacks_priority(
                *old(s),
                priority,
                byte_size,
            ) && (forall|k: int|
                0 <= k < evicted@.len() ==> store_contents(*old(s)).contains_key(
                    #[trigger] evicted@[k],
                )) && (exists|hidden: Seq<MsgId>|
                (forall|k: int|
                    0 <= k < hidden.len() ==> store_contents(*old(s)).contains_key(
                        #[trigger] hidden[k],
                    ) && hidden[k].priority == priority) && store_contents(*final(s)) == remove_all(
                    remove_all(store_contents(*old(s)), evicted@),
                    hidden,
                ).insert(id, byte_size)) && store_max(*final(s)) == store_max(*old(s))
                && store_group_max(*final(s)) == store_group_max(*old(s)) && store_total(*final(s))
                <= store_total(*old(s)) + byte_size,
            Err(e) => {
                &&& (e is ExceedesStoreMax <==> exceeds_store_max(*old(s), byte_size))
                &&& (e is ExceedesGroupMax <==> exceeds_group_max(*old(s), priority, byte_size))
                &&& (e is LacksPriority <==> lacks_priority(*old(s), priority, byte_size))
                &&& store_contents(*final(s)) == store_contents(*old(s))
                &&& store_max(*final(s)) == store_max(*old(s))
                &&& store_group_max(*final(s)) == store_group_max(*old(s))
                &&& store_total(*final(s)) <= store_total(*old(s))
            },
        },
{
    match s.add(priority, byte_size) {
        Ok(res) => {
            let id = MsgId { priority: res.uuid.priority, timestamp: res.uuid.timestamp, sequence: res.uuid.sequence };
            let evicted = res.msgs_removed.iter().map(|u| MsgId { priority: u.priority, timestamp: u.timestamp, sequence: u.sequence }).collect();
            Ok((id, evicted))
        },
        Err(msg_store::errors::Error::ExceedesStoreMax) => Err(StoreErr::ExceedesStoreMax),
        Err(msg_store::errors::Error::ExceedesGroupMax) => Err(StoreErr::ExceedesGroupMax),
        Err(msg_store::errors::Error::LacksPriority) => Err(StoreErr::LacksPriority),
        Err(msg_store::errors::Error::SyncError) => Err(StoreErr::Sync),
    }
}

/// Forgets `id`. Relies on `Store::del`: it never fails, and removing an
/// unknown id leaves the index unchanged.
#[verifier::external_body]
pub(crate) fn store_del(s: &mut msg_store::store::Store, id: MsgId)
    ensures
        store_contents(*final(s)) == store_contents(*old(s)).remove(id),
        store_max(*final(s)) == store_max(*old(s)),
        store_group_max(*final(s)) == store_group_max(*old(s)),
{
    let uuid = msg_store::uuid::Uuid {
        priority: id.priority,
        timestamp: id.timestamp,
        sequence: id.sequence,
    };
    let _ = s.del(&uuid);
}

/// Looks a message up. Relies on `Store::get`:
/// - by id, it answers whether that id is held;
/// - by priority, it returns the next message of that group in delivery
///   order (the oldest, or the youngest when `reverse`), and `None` exactly
///   when no held id has that priority;
/// - with neither, it returns the store-wide next message in delivery order,
///   `None` only when the index holds nothing, and a sync failure when its
///   internal books disagree.
#[verifier::external_body]
pub(crate) fn store_get(
    s: &msg_store::store::Store,
    uuid: Option<MsgId>,
    priority: Option<u32>,
    reverse: bool,
) -> (r: Result<Option<MsgId>, StoreErr>)
    ensures
        match r {
            Ok(opt) => {
                &&& (uuid is Some ==> opt == (if store_contents(*s).contains_key(uuid->0) {
                    uuid
                } else {
                    None::<MsgId>
                }))
                &&& (uuid is None && priority is Some ==> match opt {
                    Some(m) => store_contents(*s).contains_key(m) && m.priority == priority->0 && (
                    forall|o: MsgId|
                        store_contents(*s).contains_key(o) && o.priority == priority->0 && o != m
                            ==> if reverse {
                            o.delivered_before(m)
                        } else {
                            m.delivered_before(o)
                        }),
                    None => forall|o: MsgId|
                        store_contents(*s).contains_key(o) ==> o.priority != priority->0,
                })
                &&& (uuid is None && priority is None ==> match opt {
                    Some(m) => store_contents(*s).contains_key(m) && (forall|o: MsgId|
                        store_contents(*s).contains_key(o) && o != m ==> if reverse {
                            o.delivered_before(m)
                        } else {
                            m.delivered_before(o)
                        }),
                    None => store_contents(*s) =~= Map::empty(),
                })
            },
            Err(e) => uuid is None && priority is None && e == StoreErr::Sync,
        },
{
    let u = uuid.map(|id: MsgId| msg_store::uuid::Uuid { priority: id.priority, timestamp: id.timestamp, sequence: id.sequence });
    match s.get(u, priority, reverse) {
        Ok(Some(f)) => Ok(Some(MsgId { priority: f.priority, timestamp: f.timestamp, sequence: f.sequence })),
        Ok(None) => Ok(None),
        Err(_) => Err(StoreErr::Sync),
    }
}

/// Sets the byte budget of the group for `priority` and prunes that group
/// down to it. Relies on `Store::update_group_defaults`: the evicted ids all
/// belong to that group and were held; they are removed and nothing else
/// changes.
#[verifier::external_body]
pub(crate) fn store_update_group_defaults(
    s: &mut msg_store::store::Store,
    priority: u32,
    max_byte_size: Option<u32>,
) -> (r: Result<Vec<MsgId>, StoreErr>)
    ensures
        match r {
            Ok(evicted) => (forall|k: int|
                0 <= k < evicted@.len() ==> store_contents(*old(s)).contains_key(
                    #[trigger] evicted@[k],
                ) && evicted@[k].priority == priority) && store_contents(*final(s)) == remove_all(
                store_contents(*old(s)),
                evicted@,
            ) && store_max(*final(s)) == store_max(*old(s)) && store_group_max(*final(s)) == store_group_max(
                *old(s),
            ).insert(priority, max_byte_size),
            Err(e) => e == StoreErr::Sync,
        },
{
    let defaults = msg_store::store::GroupDefaults { max_byte_size };
    match s.update_group_defaults(priority, &defaults) {
        Ok((_bytes_removed, removed)) => Ok(
            removed.iter().map(
                |u: &msg_store::uuid::Uuid| MsgId {
                    priority: u.priority,
                    timestamp: u.timestamp,
                    sequence: u.sequence,
                },
            ).collect(),
        ),
        Err(_) => Err(StoreErr::Sync),
    }
}

/// Drops the configured byte budget of the group for `priority`. Relies on
/// `Store::delete_group_defaults`: no message is touched.
#[verifier::external_body]
pub(crate) fn store_delete_group_defaults(s: &mut msg_store::store::Store, priority: u32)
    ensures
        store_contents(*final(s)) == store_contents(*old(s)),
        store_max(*final(s)) == store_max(*old(s)),
        store_group_max(*final(s)) == store_group_max(*old(s)).remove(priority),
{
    s.delete_group_defaults(priority);
}

/// Sets the store-wide byte budget and prunes the store down to it. Relies
/// on `Store::update_store_defaults`: the evicted ids were held and are
/// removed; group budgets stay.
#[verifier::external_body]
pub(crate) fn store_update_store_defaults(
    s: &mut msg_store::store::Store,
    max_byte_size: Option<u32>,
) -> (r: Result<Vec<MsgId>, StoreErr>)
    ensures
        match r {
            Ok(evicted) => (forall|k: int|
                0 <= k < evicted@.len() ==> store_contents(*old(s)).contains_key(
                    #[trigger] evicted@[k],
                )) && store_contents(*final(s)) == remove_all(store_contents(*old(s)), evicted@)
                && store_max(*final(s)) == max_byte_size && store_group_max(*final(s)) == store_group_max(
                *old(s),
            ),
            Err(e) => e == StoreErr::Sync,
        },
{
    let defaults = msg_store::store::StoreDefaults { max_byte_size };
    match s.update_store_defaults(&defaults) {
        Ok((_bytes, _groups_removed, removed)) => Ok(
            removed.iter().map(
                |u: &msg_store::uuid::Uuid| MsgId {
                    priority: u.priority,
                    timestamp: u.timestamp,
                    sequence: u.sequence,
                },
            ).collect(),
        ),
        Err(_) => Err(StoreErr::Sync),
    }
}

/// How many messages the index holds. Relies on the `id_to_group_map` field,
/// which holds one entry per admitted message.
#[verifier::external_body]
pub fn store_msg_count(s: &msg_store::store::Store) -> usize {
    s.id_to_group_map.len()
}

/// The bytes the index currently accounts for, from its `byte_size` field.
#[verifier::external_body]
pub fn store_byte_size(s: &msg_store::store::Store) -> (r: u32)
    ensures
        r == store_total(*s),
{
    s.byte_size
}

/// The store-wide byte budget, from the `max_byte_size` field.
#[verifier::external_body]
pub(crate) fn store_max_byte_size(s: &msg_store::store::Store) -> (r: Option<u32>)
    ensures
        r == store_max(*s),
{
    s.max_byte_size
}

/// The configured group budgets, as `(priority, budget)` pairs. Relies on
/// the `group_defaults` field: each pair is a configured entry, and every
/// configured priority appears.
#[verifier::external_body]
pub(crate) fn store_group_defaults_list(s: &msg_store::store::Store) -> (r: Vec<(u32, Option<u32>)>)
    ensures
        forall|i: int|
            0 <= i < r@.len() ==> store_group_max(*s).contains_key((#[trigger] r@[i]).0)
                && store_group_max(*s)[r@[i].0] == r@[i].1,
        forall|p: u32|
            store_group_max(*s).contains_key(p) ==> exists|i: int|
                0 <= i < r@.len() && (#[trigger] r@[i]).0 == p,
{
    s.group_defaults.iter().map(|(p, d)| (*p, d.max_byte_size)).collect()
}

/// One priority group as the index reports it: its priority, current byte
/// count, budget, and message count.
#[derive(Debug, Clone, Copy, PartialEq, Eq, Structural)]
pub struct GroupView {
    pub priority: u32,
    pub byte_size: u32,
    pub max_byte_size: Option<u32>,
    pub msg_count: usize,
}

/// The priority groups the index currently tracks, in ascending priority
/// order, from the `groups_map` field. Relies on the books the store keeps
/// in balance with its message maps: each group's ceiling equals its
/// configured budget, its byte counter the sum of its members' sizes, its
/// message count their number; priorities are map keys, so distinct; and
/// every held message's group is tracked.
#[verifier::external_body]
pub(crate) fn store_group_list(s: &msg_store::store::Store) -> (r: Vec<GroupView>)
    ensures
        forall|i: int|
            0 <= i < r@.len() ==> (#[trigger] r@[i]).max_byte_size == group_limit(
                *s,
                r@[i].priority,
            ) && r@[i].byte_size as int == sum_sizes(
                restrict_at(store_contents(*s), r@[i].priority),
            ) && r@[i].msg_count as int == restrict_at(
                store_contents(*s),
                r@[i].priority,
            ).dom().len(),
        forall|i: int, j: int|
            0 <= i < j < r@.len() ==> (#[trigger] r@[i]).priority != (#[trigger] r@[j]).priority,
        forall|id: MsgId|
            store_contents(*s).contains_key(id) ==> exists|i: int|
                0 <= i < r@.len() && (#[trigger] r@[i]).priority == id.priority,
{
    s.groups_map.iter().map(
        |(p, g)| GroupView {
            priority: *p,
            byte_size: g.byte_size,
            max_byte_size: g.max_byte_size,
            msg_count: g.msgs_map.len(),
        },
    ).collect()
}

/// The messages of the group for `priority` with their accounted byte
/// sizes. Relies on the group's `msgs_map` field: each listed id is held
/// with that size under that priority, and every held id of that priority is
/// listed.
#[verifier::external_body]
pub(crate) fn store_group_msgs(s: &msg_store::store::Store, priority: u32) -> (r: Vec<(MsgId, u32)>)
    ensures
        forall|i: int|
            0 <= i < r@.len() ==> store_contents(*s).contains_key((#[trigger] r@[i]).0)
                && store_contents(*s)[r@[i].0] == r@[i].1 && r@[i].0.priority == priority,
        forall|id: MsgId|
            store_contents(*s).contains_key(id) && id.priority == priority ==> exists|i: int|
                0 <= i < r@.len() && (#[trigger] r@[i]).0 == id,
{
    match s.groups_map.get(&priority) {
        Some(group) => group.msgs_map.iter().map(
            |(u, b): (&msg_store::uuid::Uuid, &u32)| (
                MsgId { priority: u.priority, timestamp: u.timestamp, sequence: u.sequence },
                *b,
            ),
        ).collect(),
        None => Vec::new(),
    }
}

} // verus!
