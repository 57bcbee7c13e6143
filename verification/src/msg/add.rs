//! Ingestion: decoding one submission and inserting it across the stores.
//!
//! The priority index is the admission authority and is asked first; the
//! secondary stores are touched only once admission is confirmed, so a
//! refused admission never changes anything. Space is reclaimed (the
//! eviction cascade) before new space is consumed. The index under-reports
//! its eviction victims in one case — the store-wide prune's removals from
//! the admitted group itself — so the handler lists that group before and
//! after admission and reclaims those victims' records too. Any failure of
//! a secondary store after admission is fatal: the caller must stop serving
//! rather than continue against diverged stores.

use crate::errors::ApiErr;
use crate::file_storage::FileStorage;
use crate::ids::MsgId;
use crate::index::{exceeds_group_max, exceeds_store_max, lacks_priority, remove_all, remove_set,
    store_add, store_byte_size, store_contents, store_group_max, store_group_msgs, store_max,
    store_total, StoreErr, lemma_remove_all};
use crate::msg::sys_wf;
use crate::msg::remove_records;
use crate::record_db::RecordDb;
use crate::stats::Stats;
use crate::stats::counted;
use crate::wire::{decode, decode_spec, scan_end, Chunky, SpecMsg};
use vstd::prelude::*;

verus! {

/// A decoded request body, as the socket layer reports it.
#[derive(Debug, Clone)]
pub struct Body {
    pub priority: u32,
    pub msg: String,
}

/// A blob insert whose admission and cascade are done, awaiting the blob
/// file. The caller streams the blob to disk (the head bytes first, then the
/// rest of the payload) and only then commits, so a half-written file is
/// never indexed.
pub struct PendingBlob {
    /// The id the message was admitted under.
    pub uuid: MsgId,
    /// Payload bytes that arrived with the header; they head the blob file.
    pub head: Vec<u8>,
    /// The echoed metadata the record store will keep as the message text.
    pub msg: Vec<u8>,
    /// The byte size the message is accounted with.
    pub byte_size: u32,
}

/// What an insert produced: a fully stored inline message, or a blob insert
/// awaiting its file. Either way, the eviction cascade already ran:
/// `evicted` lists the ids the priority index gave up, without duplicates,
/// and `removed_files` the ones whose blob files the caller must now remove
/// from disk.
pub enum AddOutcome {
    Inline { uuid: MsgId, evicted: Vec<MsgId>, removed_files: Vec<MsgId> },
    Blob { pending: PendingBlob, evicted: Vec<MsgId>, removed_files: Vec<MsgId> },
}

/// Whether `list` holds `id`.
fn holds_id(list: &Vec<MsgId>, id: MsgId) -> (r: bool)
    ensures
        r == list@.contains(id),
{
    let mut i: usize = 0;
    while i < list.len()
        invariant
            0 <= i <= list@.len(),
            forall|k: int| 0 <= k < i ==> list@[k] != id,
        decreases list@.len() - i,
    {
        let e = &list[i];
        if e.priority == id.priority && e.timestamp == id.timestamp && e.sequence == id.sequence {
            assert(list@[i as int] == id);
            return true;
        }
        i = i + 1;
    }
    proof {
        if list@.contains(id) {
            let k = choose|k: int| 0 <= k < list@.len() && list@[k] == id;
            assert(list@[k] != id);
        }
    }
    false
}

/// Whether some pair of a group listing is keyed by `id`.
pub open spec fn listed(l: Seq<(MsgId, u32)>, id: MsgId) -> bool {
    exists|i: int| 0 <= i < l.len() && (#[trigger] l[i]).0 == id
}

/// Executable form of [`listed`].
fn holds_key(list: &Vec<(MsgId, u32)>, id: MsgId) -> (r: bool)
    ensures
        r == listed(list@, id),
{
    let mut i: usize = 0;
    while i < list.len()
        invariant
            0 <= i <= list@.len(),
            forall|k: int| 0 <= k < i ==> (#[trigger] list@[k]).0 != id,
        decreases list@.len() - i,
    {
        let e = &list[i].0;
        if e.priority == id.priority && e.timestamp == id.timestamp && e.sequence == id.sequence {
            assert(list@[i as int].0 == id);
            return true;
        }
        i = i + 1;
    }
    proof {
        if listed(list@, id) {
            let k = choose|k: int| 0 <= k < list@.len() && (#[trigger] list@[k]).0 == id;
            assert(list@[k].0 != id);
        }
    }
    false
}

/// The ids of the admitted group that vanished across the admission call:
/// present in the `before` listing, absent from the `after` one.
pub open spec fn vanished(before: Seq<(MsgId, u32)>, after: Seq<(MsgId, u32)>) -> Set<MsgId> {
    Set::new(|x: MsgId| listed(before, x) && !listed(after, x))
}

/// Ingests one submission: decodes the payload, asks the priority index to
/// admit it, applies the eviction cascade, updates the statistics, and (for
/// an inline message) writes the record.
///
/// On a conflict or a malformed submission nothing changes and the exact
/// error says why: each conflict code comes back exactly on its admission
/// condition, and a submission the 32-bit byte accounting cannot fit is
/// refused as exceeding the store's maximum. On success the stores moved
/// exactly as stated, and for an inline message the cross-store invariant is
/// reestablished; a blob insert completes it in [`commit_blob`] once the
/// caller has written the file.
pub fn handle<T: Chunky, D: RecordDb>(
    store: &mut msg_store::store::Store,
    database: &mut D,
    file_storage: &mut FileStorage,
    stats: &mut Stats,
    payload: &mut T,
) -> (r: Result<AddOutcome, ApiErr>)
    requires
        sys_wf(*old(store), *old(database), *old(file_storage)),
    ensures
        final(database).inv(),
        final(file_storage).wf(),
        final(file_storage).configured == old(file_storage).configured,
        final(file_storage).path == old(file_storage).path,
        match r {
            Ok(outcome) => decode_spec(old(payload).chunks(), old(file_storage).configured)
                matches Ok(sm) && (match outcome {
                AddOutcome::Inline { uuid, evicted, removed_files } => !sm.save_to_file
                    && uuid.priority == sm.priority && (forall|k: int|
                    0 <= k < evicted@.len() ==> store_contents(*old(store)).contains_key(
                        #[trigger] evicted@[k],
                    )) && (forall|a: int, b: int|
                    0 <= a < b < evicted@.len() ==> evicted@[a] != evicted@[b]) && store_contents(
                    *final(store),
                ) == remove_all(store_contents(*old(store)), evicted@).insert(uuid, sm.byte_size)
                    && final(database).view_db() == remove_all(
                    old(database).view_db(),
                    evicted@,
                ).insert(uuid, (sm.msg, sm.byte_size)) && final(file_storage).ids() == remove_set(
                    old(file_storage).ids(),
                    evicted@,
                ) && removed_files@.to_set() == old(file_storage).ids().intersect(
                    evicted@.to_set(),
                ) && final(stats).inserted == counted(old(stats).inserted, 1) && final(stats).deleted == counted(old(stats).deleted, evicted@.len() as int) && final(stats).pruned == old(stats).pruned && sys_wf(
                    *final(store),
                    *final(database),
                    *final(file_storage),
                ) && final(payload).chunks().len() == 0,
                AddOutcome::Blob { pending, evicted, removed_files } => sm.save_to_file
                    && pending.uuid.priority == sm.priority && pending.msg@ == sm.msg
                    && pending.byte_size == sm.byte_size && pending.head@ == sm.blob_head && (
                forall|k: int|
                    0 <= k < evicted@.len() ==> store_contents(*old(store)).contains_key(
                        #[trigger] evicted@[k],
                    )) && (forall|a: int, b: int|
                    0 <= a < b < evicted@.len() ==> evicted@[a] != evicted@[b]) && store_contents(
                    *final(store),
                ) == remove_all(store_contents(*old(store)), evicted@).insert(
                    pending.uuid,
                    sm.byte_size,
                ) && final(database).view_db() == remove_all(old(database).view_db(), evicted@)
                    && final(file_storage).ids() == remove_set(old(file_storage).ids(), evicted@)
                    && removed_files@.to_set() == old(file_storage).ids().intersect(
                    evicted@.to_set(),
                ) && final(stats).inserted == counted(old(stats).inserted, 1) && final(stats).deleted == counted(old(stats).deleted, evicted@.len() as int) && final(stats).pruned == old(stats).pruned && final(payload).chunks()
                    == old(payload).chunks().skip(scan_end(old(payload).chunks()) + 1),
            }),
            Err(e) => (!e.fatal() ==> store_contents(*final(store)) == store_contents(
                *old(store),
            ) && store_max(*final(store)) == store_max(*old(store)) && store_group_max(
                *final(store),
            ) == store_group_max(*old(store)) && final(database).view_db()
                == old(database).view_db() && final(file_storage).ids() == old(file_storage).ids()
                && *final(stats) == *old(stats) && (match decode_spec(
                old(payload).chunks(),
                old(file_storage).configured,
            ) {
                Err(de) => e == de,
                Ok(sm) => {
                    &&& (e == ApiErr::MsgExceedesStoreMax <==> (store_total(*old(store))
                        + sm.byte_size > u32::MAX || exceeds_store_max(*old(store), sm.byte_size)))
                    &&& (e == ApiErr::MsgExceedesGroupMax <==> (store_total(*old(store))
                        + sm.byte_size <= u32::MAX && exceeds_group_max(
                        *old(store),
                        sm.priority,
                        sm.byte_size,
                    )))
                    &&& (e == ApiErr::MsgLacksPriority <==> (store_total(*old(store)) + sm.byte_size
                        <= u32::MAX && lacks_priority(*old(store), sm.priority, sm.byte_size)))
                    &&& (e == ApiErr::MsgExceedesStoreMax || e == ApiErr::MsgExceedesGroupMax || e
                        == ApiErr::MsgLacksPriority)
                },
            })) && (e == ApiErr::FileStorageNotConfigured ==> final(payload).chunks().len() == 0) && (
            e.fatal() ==> (decode_spec(old(payload).chunks(), old(file_storage).configured)
                matches Ok(sm) && (e == ApiErr::StoreError || e == ApiErr::DatabaseError)
                && store_total(*old(store)) + sm.byte_size <= u32::MAX && !exceeds_store_max(
                *old(store),
                sm.byte_size,
            ) && !exceeds_group_max(*old(store), sm.priority, sm.byte_size) && !lacks_priority(
                *old(store),
                sm.priority,
                sm.byte_size,
            ) && (e == ApiErr::StoreError ==> store_contents(*final(store)) == store_contents(
                *old(store),
            ) && store_max(*final(store)) == store_max(*old(store)) && store_group_max(
                *final(store),
            ) == store_group_max(*old(store)) && final(database).view_db()
                == old(database).view_db() && final(file_storage).ids() == old(file_storage).ids()
                && *final(stats) == *old(stats)) && (e == ApiErr::DatabaseError ==> store_max(
                *final(store),
            ) == store_max(*old(store)) && store_group_max(*final(store)) == store_group_max(
                *old(store),
            ) && (exists|id: MsgId, ev: Seq<MsgId>, i: int|
                0 <= i <= ev.len() && id.priority == sm.priority && (forall|k: int|
                    0 <= k < ev.len() ==> store_contents(*old(store)).contains_key(
                        #[trigger] ev[k],
                    )) && store_contents(*final(store)) == remove_all(
                    store_contents(*old(store)),
                    ev,
                ).insert(id, sm.byte_size) && final(database).view_db() == remove_all(
                    old(database).view_db(),
                    ev.take(i),
                ) && final(file_storage).ids() == remove_set(
                    old(file_storage).ids(),
                    ev.take(i),
                ) && (*final(stats) == *old(stats) || (final(stats).inserted == counted(
                    old(stats).inserted,
                    1,
                ) && final(stats).deleted == counted(old(stats).deleted, ev.len() as int) && final(stats).pruned == old(stats).pruned)))))),
        },
{
    let ghost c0 = store_contents(*old(store));
    let ghost db0 = old(database).view_db();
    let configured = file_storage.configured;
    let decoded = match decode(payload, configured) {
        Ok(d) => d,
        Err(e) => {
            return Err(e);
        },
    };
    // List the admitted group beforehand: the index's store-wide prune does
    // not report the victims it takes from this group, so they must be
    // recovered by comparing the group around the admission call.
    let before = store_group_msgs(store, decoded.priority);
    // The index accounts bytes in 32-bit arithmetic; a submission the
    // accounting cannot fit is refused as exceeding the store's maximum.
    let total = store_byte_size(store);
    if total as u64 + decoded.byte_size as u64 > u32::MAX as u64 {
        return Err(ApiErr::MsgExceedesStoreMax);
    }
    let (uuid, reported) = match store_add(store, decoded.priority, decoded.byte_size) {
        Ok(pair) => pair,
        Err(StoreErr::ExceedesStoreMax) => {
            return Err(ApiErr::MsgExceedesStoreMax);
        },
        Err(StoreErr::ExceedesGroupMax) => {
            return Err(ApiErr::MsgExceedesGroupMax);
        },
        Err(StoreErr::LacksPriority) => {
            return Err(ApiErr::MsgLacksPriority);
        },
        Err(StoreErr::Sync) => {
            proof {
                assert(store_total(*old(store)) + decoded.byte_size <= u32::MAX);
            }
            return Err(ApiErr::StoreError);
        },
    };
    let after = store_group_msgs(store, decoded.priority);
    let ghost c1 = store_contents(*store);
    let ghost hidden = choose|hidden: Seq<MsgId>|
        (forall|k: int|
            0 <= k < hidden.len() ==> c0.contains_key(#[trigger] hidden[k]) && hidden[k].priority
                == decoded.priority) && c1 == remove_all(remove_all(c0, reported@), hidden).insert(
            uuid,
            decoded.byte_size,
        );
    // Combine the reported victims with the vanished group members, without
    // duplicates: this is the complete eviction list.
    let mut evicted: Vec<MsgId> = Vec::new();
    let mut i: usize = 0;
    let n = reported.len();
    proof {
        assert(evicted@.to_set() =~= reported@.take(0).to_set());
    }
    while i < n
        invariant
            0 <= i <= reported@.len(),
            n == reported@.len(),
            forall|a: int, b: int| 0 <= a < b < evicted@.len() ==> evicted@[a] != evicted@[b],
            evicted@.to_set() == reported@.take(i as int).to_set(),
        decreases n - i,
    {
        let x = reported[i];
        let ghost ev_before = evicted@;
        if !holds_id(&evicted, x) {
            evicted.push(x);
        }
        proof {
            let t1 = reported@.take(i as int + 1);
            let t0 = reported@.take(i as int);
            assert(t1.drop_last() =~= t0);
            assert(t1[i as int] == x);
            assert forall|y: MsgId| t1.to_set().contains(y) implies ev_before.to_set().insert(
                x,
            ).contains(y) by {
                let k = choose|k: int| 0 <= k < t1.len() && t1[k] == y;
                if k < i {
                    assert(t0[k] == y);
                }
            }
            assert forall|y: MsgId|
                ev_before.to_set().insert(x).contains(y) implies t1.to_set().contains(y) by {
                if y == x {
                    assert(t1[i as int] == y);
                } else {
                    let k = choose|k: int| 0 <= k < t0.len() && t0[k] == y;
                    assert(t1[k] == y);
                }
            }
            if ev_before.contains(x) {
                assert(evicted@ == ev_before);
                assert(evicted@.to_set() =~= t1.to_set());
            } else {
                assert(evicted@ == ev_before.push(x));
                assert forall|a: int, b: int|
                    0 <= a < b < evicted@.len() implies evicted@[a] != evicted@[b] by {
                    if b == evicted@.len() - 1 {
                        assert(evicted@[a] == ev_before[a]);
                        assert(ev_before.contains(ev_before[a]) == false || true);
                        if evicted@[a] == x {
                            assert(ev_before[a] == x);
                            assert(ev_before.contains(x));
                        }
                    } else {
                        assert(ev_before[a] != ev_before[b]);
                    }
                }
                assert forall|y: MsgId| evicted@.to_set().contains(y) implies ev_before.to_set()
                    .insert(x).contains(y) by {
                    let k = choose|k: int| 0 <= k < evicted@.len() && evicted@[k] == y;
                    if k < evicted@.len() - 1 {
                        assert(ev_before[k] == y);
                    }
                }
                assert forall|y: MsgId|
                    ev_before.to_set().insert(x).contains(y) implies evicted@.to_set().contains(
                    y,
                ) by {
                    if y == x {
                        assert(evicted@[evicted@.len() - 1] == y);
                    } else {
                        let k = choose|k: int| 0 <= k < ev_before.len() && ev_before[k] == y;
                        assert(evicted@[k] == y);
                    }
                }
                assert(evicted@.to_set() =~= ev_before.to_set().insert(x));
                assert(evicted@.to_set() =~= t1.to_set());
            }
        }
        i = i + 1;
    }
    proof {
        assert(reported@.take(n as int) =~= reported@);
    }
    let ghost rep_set = reported@.to_set();
    let mut j: usize = 0;
    let m = before.len();
    proof {
        assert forall|y: MsgId|
            vanished(before@.take(0), after@).contains(y) implies rep_set.contains(y) by {
            let t = choose|t: int| 0 <= t < 0 && (#[trigger] before@.take(0)[t]).0 == y;
        }
        assert(evicted@.to_set() =~= rep_set.union(vanished(before@.take(0), after@)));
    }
    while j < m
        invariant
            0 <= j <= before@.len(),
            m == before@.len(),
            rep_set == reported@.to_set(),
            forall|a: int, b: int| 0 <= a < b < evicted@.len() ==> evicted@[a] != evicted@[b],
            evicted@.to_set() == rep_set.union(vanished(before@.take(j as int), after@)),
        decreases m - j,
    {
        let x = before[j].0;
        let ghost ev_before = evicted@;
        let gone = !holds_key(&after, x);
        if gone && !holds_id(&evicted, x) {
            evicted.push(x);
        }
        proof {
            let v1 = vanished(before@.take(j as int + 1), after@);
            let v0 = vanished(before@.take(j as int), after@);
            assert(before@.take(j as int + 1)[j as int] == before@[j as int]);
            assert forall|y: MsgId| v0.contains(y) implies v1.contains(y) by {
                let t = choose|t: int|
                    0 <= t < j && (#[trigger] before@.take(j as int)[t]).0 == y;
                assert(before@.take(j as int + 1)[t].0 == y);
            }
            assert forall|y: MsgId| v1.contains(y) implies v0.insert(x).contains(y) by {
                let t = choose|t: int|
                    0 <= t < j + 1 && (#[trigger] before@.take(j as int + 1)[t]).0 == y;
                if t < j {
                    assert(before@.take(j as int)[t].0 == y);
                }
            }
            if gone {
                assert(listed(before@.take(j as int + 1), x)) by {
                    assert(before@.take(j as int + 1)[j as int].0 == x);
                }
                assert(v1 =~= v0.insert(x));
                if ev_before.contains(x) {
                    assert(evicted@ == ev_before);
                    assert(evicted@.to_set() =~= rep_set.union(v1));
                } else {
                    assert(evicted@ == ev_before.push(x));
                    assert forall|a: int, b: int|
                        0 <= a < b < evicted@.len() implies evicted@[a] != evicted@[b] by {
                        if b == evicted@.len() - 1 {
                            assert(evicted@[a] == ev_before[a]);
                            if evicted@[a] == x {
                                assert(ev_before.contains(x));
                            }
                        } else {
                            assert(ev_before[a] != ev_before[b]);
                        }
                    }
                    assert forall|y: MsgId|
                        evicted@.to_set().contains(y) implies ev_before.to_set().insert(
                        x,
                    ).contains(y) by {
                        let k = choose|k: int| 0 <= k < evicted@.len() && evicted@[k] == y;
                        if k < evicted@.len() - 1 {
                            assert(ev_before[k] == y);
                        }
                    }
                    assert forall|y: MsgId|
                        ev_before.to_set().insert(x).contains(y) implies evicted@.to_set()
                        .contains(y) by {
                        if y == x {
                            assert(evicted@[evicted@.len() - 1] == y);
                        } else {
                            let k = choose|k: int| 0 <= k < ev_before.len() && ev_before[k] == y;
                            assert(evicted@[k] == y);
                        }
                    }
                    assert(evicted@.to_set() =~= ev_before.to_set().insert(x));
                    assert(evicted@.to_set() =~= rep_set.union(v1));
                }
            } else {
                assert forall|y: MsgId| v1.contains(y) implies v0.contains(y) by {
                    let t = choose|t: int|
                        0 <= t < j + 1 && (#[trigger] before@.take(j as int + 1)[t]).0 == y;
                    if t < j {
                        assert(before@.take(j as int)[t].0 == y);
                    } else {
                        assert(y == x);
                        assert(!listed(after@, y));
                    }
                }
                assert(v1 =~= v0);
                assert(evicted@.to_set() =~= rep_set.union(v1));
            }
        }
        j = j + 1;
    }
    proof {
        assert(before@.take(m as int) =~= before@);
        let full_vanished = vanished(before@, after@);
        assert(evicted@.to_set() == rep_set.union(full_vanished));
        // The combined list is the complete eviction set: the contents moved
        // exactly by removing it and inserting the new id.
        assert forall|x: MsgId|
            c1.contains_key(x) <==> remove_all(c0, evicted@).insert(
                uuid,
                decoded.byte_size,
            ).contains_key(x) by {
            lemma_remove_all(c0, reported@, x);
            lemma_remove_all(remove_all(c0, reported@), hidden, x);
            lemma_remove_all(c0, evicted@, x);
            if x != uuid {
                if evicted@.contains(x) && !rep_set.contains(x) {
                    // a vanished group member: it was held before and is
                    // gone from the listing, hence from the index
                    assert(evicted@.to_set().contains(x));
                    assert(rep_set.union(full_vanished).contains(x));
                    assert(full_vanished.contains(x));
                    let t = choose|t: int|
                        0 <= t < before@.len() && (#[trigger] before@[t]).0 == x;
                    assert(c0.contains_key(x));
                    assert(x.priority == decoded.priority);
                    if c1.contains_key(x) {
                        let u = choose|u: int|
                            0 <= u < after@.len() && (#[trigger] after@[u]).0 == x;
                        assert(listed(after@, x));
                    }
                }
                if hidden.contains(x) && !rep_set.contains(x) && c0.contains_key(x) {
                    // an unreported victim: the group listings show it gone
                    let k = choose|k: int| 0 <= k < hidden.len() && hidden[k] == x;
                    assert(x.priority == decoded.priority);
                    assert(!c1.contains_key(x));
                    assert(listed(before@, x));
                    if listed(after@, x) {
                        let u = choose|u: int|
                            0 <= u < after@.len() && (#[trigger] after@[u]).0 == x;
                        assert(c1.contains_key(x));
                    }
                    assert(full_vanished.contains(x));
                    assert(evicted@.to_set().contains(x));
                }
                if rep_set.contains(x) {
                    assert(evicted@.to_set().contains(x));
                }
            }
        }
        assert forall|x: MsgId|
            c1.contains_key(x) implies c1[x] == remove_all(c0, evicted@).insert(
                uuid,
                decoded.byte_size,
            )[x] by {
            if x != uuid {
                lemma_remove_all(c0, reported@, x);
                lemma_remove_all(remove_all(c0, reported@), hidden, x);
                lemma_remove_all(c0, evicted@, x);
            }
        }
        assert(c1 =~= remove_all(c0, evicted@).insert(uuid, decoded.byte_size));
        assert forall|k: int|
            0 <= k < evicted@.len() implies c0.contains_key(#[trigger] evicted@[k]) by {
            let x = evicted@[k];
            assert(evicted@.to_set().contains(x));
            if rep_set.contains(x) {
            } else {
                assert(full_vanished.contains(x));
                let t = choose|t: int| 0 <= t < before@.len() && (#[trigger] before@[t]).0 == x;
            }
        }
    }
    let removed_files = match remove_records(database, file_storage, &evicted) {
        Ok(removed) => removed,
        Err(e) => {
            proof {
                let sm = decode_spec(old(payload).chunks(), old(file_storage).configured)->Ok_0;
                let i = choose|i: int|
                    0 <= i <= evicted@.len() && database.view_db() == remove_all(
                        db0,
                        evicted@.take(i),
                    ) && file_storage.ids() == remove_set(
                        old(file_storage).ids(),
                        evicted@.take(i),
                    );
                assert(0 <= i <= evicted@.len() && uuid.priority == sm.priority && (forall|k: int|
                    0 <= k < evicted@.len() ==> store_contents(*old(store)).contains_key(
                        #[trigger] evicted@[k],
                    )) && store_contents(*store) == remove_all(
                    store_contents(*old(store)),
                    evicted@,
                ).insert(uuid, sm.byte_size) && database.view_db() == remove_all(
                    old(database).view_db(),
                    evicted@.take(i),
                ) && file_storage.ids() == remove_set(old(file_storage).ids(), evicted@.take(i))
                    && *stats == *old(stats));
            }
            return Err(e);
        },
    };
    let deleted_count = if evicted.len() > u32::MAX as usize {
        u32::MAX
    } else {
        evicted.len() as u32
    };
    stats.add(1, deleted_count, 0);
    proof {
        assert(counted(old(stats).deleted, deleted_count as int) == counted(
            old(stats).deleted,
            evicted@.len() as int,
        ));
    }
    if decoded.save_to_file {
        let pending = PendingBlob {
            uuid,
            head: decoded.blob_head,
            msg: decoded.msg,
            byte_size: decoded.byte_size,
        };
        Ok(AddOutcome::Blob { pending, evicted, removed_files })
    } else {
        match database.put(uuid, decoded.msg, decoded.byte_size) {
            Ok(()) => {},
            Err(e) => {
                proof {
                    let sm = decode_spec(old(payload).chunks(), old(file_storage).configured)->Ok_0;
                    let w: int = evicted@.len() as int;
                    assert(evicted@.take(w) =~= evicted@);
                    assert(0 <= w <= evicted@.len() && uuid.priority == sm.priority && (forall|
                        k: int,
                    |
                        0 <= k < evicted@.len() ==> store_contents(*old(store)).contains_key(
                            #[trigger] evicted@[k],
                        )) && store_contents(*store) == remove_all(
                        store_contents(*old(store)),
                        evicted@,
                    ).insert(uuid, sm.byte_size) && database.view_db() == remove_all(
                        old(database).view_db(),
                        evicted@.take(w),
                    ) && file_storage.ids() == remove_set(
                        old(file_storage).ids(),
                        evicted@.take(w),
                    ) && stats.inserted == counted(old(stats).inserted, 1) && stats.deleted
                        == counted(old(stats).deleted, evicted@.len() as int) && stats.pruned
                        == old(stats).pruned);
                }
                return Err(e);
            },
        }
        proof {
            let cf = store_contents(*store);
            let db1 = database.view_db();
            assert forall|x: MsgId| db1.contains_key(x) <==> cf.contains_key(x) by {
                lemma_remove_all(db0, evicted@, x);
                lemma_remove_all(c0, evicted@, x);
            }
            assert(db1.dom() =~= cf.dom());
            assert forall|x: MsgId| cf.contains_key(x) implies (#[trigger] db1[x]).1 == cf[x] by {
                if x != uuid {
                    lemma_remove_all(db0, evicted@, x);
                    lemma_remove_all(c0, evicted@, x);
                }
            }
            assert(sys_wf(*store, *database, *file_storage));
        }
        Ok(AddOutcome::Inline { uuid, evicted, removed_files })
    }
}

/// Completes a blob insert after the caller wrote the blob file in full:
/// records the file in the index, then writes the record. Called only after
/// a complete write, which keeps a half-written file unindexed; an abandoned
/// upload leaves only an orphan file for startup reconciliation.
pub fn commit_blob<D: RecordDb>(
    database: &mut D,
    file_storage: &mut FileStorage,
    pending: PendingBlob,
) -> (r: Result<MsgId, ApiErr>)
    requires
        old(database).inv(),
        old(file_storage).wf(),
        old(file_storage).configured,
    ensures
        final(database).inv(),
        final(file_storage).wf(),
        final(file_storage).configured == old(file_storage).configured,
        final(file_storage).path == old(file_storage).path,
        final(file_storage).ids() == old(file_storage).ids().insert(pending.uuid),
        match r {
            Ok(id) => id == pending.uuid && final(database).view_db() == old(database).view_db().insert(pending.uuid, (pending.msg@, pending.byte_size)),
            Err(e) => e == ApiErr::DatabaseError && final(database).view_db() == old(database).view_db(),
        },
{
    file_storage.insert(pending.uuid);
    match database.put(pending.uuid, pending.msg, pending.byte_size) {
        Ok(()) => Ok(pending.uuid),
        Err(e) => Err(e),
    }
}

} // verus!
