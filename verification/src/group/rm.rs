//! Deleting every message of one priority group.

use crate::errors::ApiErr;
use crate::file_storage::FileStorage;
use crate::group_defaults::PruneOutcome;
use crate::ids::MsgId;
use crate::index::{remove_all, remove_set, store_contents, store_del, store_group_msgs,
    store_group_max, store_max, lemma_remove_all};
use crate::msg::remove_records;
use crate::msg::sys_wf;
use crate::record_db::RecordDb;
use crate::stats::Stats;
use crate::stats::counted;
use vstd::prelude::*;

verus! {

/// Deletes every message of the group for `priority` from all three stores,
/// counting each as a client deletion. Returns the deleted ids and the blob
/// files the caller must remove. A group the index does not hold is a no-op.
pub fn handle<D: RecordDb>(
    store: &mut msg_store::store::Store,
    database: &mut D,
    file_storage: &mut FileStorage,
    stats: &mut Stats,
    priority: u32,
) -> (r: Result<PruneOutcome, ApiErr>)
    requires
        sys_wf(*old(store), *old(database), *old(file_storage)),
    ensures
        final(database).inv(),
        final(file_storage).wf(),
        final(file_storage).configured == old(file_storage).configured,
        final(file_storage).path == old(file_storage).path,
        match r {
            Ok(out) => store_max(*final(store)) == store_max(*old(store)) && store_group_max(
                *final(store),
            ) == store_group_max(*old(store)) && (forall|x: MsgId|
                store_contents(*final(store)).contains_key(x) <==> (store_contents(
                    *old(store),
                ).contains_key(x) && x.priority != priority)) && (forall|x: MsgId|
                final(database).view_db().contains_key(x) <==> (old(database).view_db().contains_key(x) && x.priority != priority)) && (forall|k: int|
                0 <= k < out.evicted@.len() ==> (#[trigger] out.evicted@[k]).priority == priority)
                && out.removed_files@.to_set() == old(file_storage).ids().intersect(
                out.evicted@.to_set(),
            ) && final(stats).deleted == counted(old(stats).deleted, out.evicted@.len() as int)
                && final(stats).inserted == old(stats).inserted && final(stats).pruned == old(stats).pruned && sys_wf(*final(store), *final(database), *final(file_storage)),
            Err(e) => e == ApiErr::DatabaseError && *final(stats) == *old(stats) && store_max(
                *final(store),
            ) == store_max(*old(store)) && store_group_max(*final(store)) == store_group_max(
                *old(store),
            ) && (exists|ev: Seq<MsgId>, i: int|
                0 <= i <= ev.len() && (forall|k: int|
                    0 <= k < ev.len() ==> (#[trigger] ev[k]).priority == priority)
                    && store_contents(*final(store)) == remove_all(store_contents(*old(store)), ev)
                    && final(database).view_db() == remove_all(old(database).view_db(), ev.take(i))
                    && final(file_storage).ids() == remove_set(
                    old(file_storage).ids(),
                    ev.take(i),
                )),
        },
{
    let ghost c0 = store_contents(*old(store));
    let ghost db0 = old(database).view_db();
    let listed = store_group_msgs(store, priority);
    let mut ids: Vec<MsgId> = Vec::new();
    let mut i: usize = 0;
    let n = listed.len();
    while i < n
        invariant
            0 <= i <= listed@.len(),
            n == listed@.len(),
            ids@.len() == i,
            forall|k: int| 0 <= k < i ==> (#[trigger] ids@[k]) == listed@[k].0,
        decreases n - i,
    {
        let (uuid, _byte_size) = listed[i];
        ids.push(uuid);
        i = i + 1;
    }
    let mut j: usize = 0;
    let m = ids.len();
    proof {
        assert(ids@.take(0) =~= Seq::<MsgId>::empty());
        assert(store_contents(*store) =~= remove_all(c0, ids@.take(0)));
    }
    while j < m
        invariant
            0 <= j <= ids@.len(),
            m == ids@.len(),
            c0 == store_contents(*old(store)),
            store_contents(*store) == remove_all(c0, ids@.take(j as int)),
            store_max(*store) == store_max(*old(store)),
            store_group_max(*store) == store_group_max(*old(store)),
        decreases m - j,
    {
        let uuid = ids[j];
        store_del(store, uuid);
        proof {
            let t1 = ids@.take(j as int + 1);
            assert(t1.drop_last() =~= ids@.take(j as int));
            assert(t1.last() == ids@[j as int]);
            assert(store_contents(*store) == remove_all(c0, t1));
        }
        j = j + 1;
    }
    proof {
        assert(ids@.take(m as int) =~= ids@);
    }
    let removed_files = match remove_records(database, file_storage, &ids) {
        Ok(removed) => removed,
        Err(e) => {
            proof {
                let i = choose|i: int|
                    0 <= i <= ids@.len() && database.view_db() == remove_all(db0, ids@.take(i))
                        && file_storage.ids() == remove_set(old(file_storage).ids(), ids@.take(i));
                assert forall|k: int|
                    0 <= k < ids@.len() implies (#[trigger] ids@[k]).priority == priority by {
                    assert(listed@[k].0 == ids@[k]);
                }
                assert(0 <= i <= ids@.len() && (forall|k: int|
                    0 <= k < ids@.len() ==> (#[trigger] ids@[k]).priority == priority)
                    && store_contents(*store) == remove_all(store_contents(*old(store)), ids@)
                    && database.view_db() == remove_all(db0, ids@.take(i)) && file_storage.ids()
                    == remove_set(old(file_storage).ids(), ids@.take(i)));
            }
            return Err(e);
        },
    };
    let deleted_count = if ids.len() > u32::MAX as usize {
        u32::MAX
    } else {
        ids.len() as u32
    };
    stats.add(0, deleted_count, 0);
    proof {
        assert(counted(old(stats).deleted, deleted_count as int) == counted(
            old(stats).deleted,
            ids@.len() as int,
        ));
        let c1 = store_contents(*store);
        let db1 = database.view_db();
        assert forall|x: MsgId| ids@.contains(x) <==> (c0.contains_key(x) && x.priority
            == priority) by {
            if ids@.contains(x) {
                let k = choose|k: int| 0 <= k < ids@.len() && ids@[k] == x;
                assert(listed@[k].0 == x);
            }
            if c0.contains_key(x) && x.priority == priority {
                let k = choose|k: int| 0 <= k < listed@.len() && (#[trigger] listed@[k]).0 == x;
                assert(ids@[k] == x);
            }
        }
        assert forall|x: MsgId|
            c1.contains_key(x) <==> (c0.contains_key(x) && x.priority != priority) by {
            lemma_remove_all(c0, ids@, x);
        }
        assert forall|x: MsgId|
            db1.contains_key(x) <==> (db0.contains_key(x) && x.priority != priority) by {
            lemma_remove_all(db0, ids@, x);
        }
        assert(db1.dom() =~= c1.dom());
        assert forall|x: MsgId| c1.contains_key(x) implies (#[trigger] db1[x]).1 == c1[x] by {
            lemma_remove_all(db0, ids@, x);
            lemma_remove_all(c0, ids@, x);
        }
        assert(sys_wf(*store, *database, *file_storage));
    }
    Ok(PruneOutcome { evicted: ids, removed_files })
}

} // verus!
