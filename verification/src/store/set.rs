//! Setting the store-wide byte budget, pruning the store down to it.

use crate::config::StoreConfig;
use crate::errors::ApiErr;
use crate::file_storage::FileStorage;
use crate::group_defaults::PruneOutcome;
use crate::ids::MsgId;
use crate::index::{remove_all, remove_set, store_contents, store_group_max, store_max,
    store_update_store_defaults};
use crate::msg::remove_records;
use crate::msg::sys_wf;
use crate::record_db::RecordDb;
use crate::stats::Stats;
use crate::stats::counted;
use vstd::prelude::*;

verus! {

/// Sets the store-wide byte budget. Messages the store now exceeds the
/// budget by are pruned — removed from all three stores and counted as
/// `pruned` — and the configuration adopts the new ceiling; the caller
/// persists it and removes the listed blob files. A secondary-store failure
/// after the index committed is fatal.
pub fn handle<D: RecordDb>(
    store: &mut msg_store::store::Store,
    database: &mut D,
    file_storage: &mut FileStorage,
    stats: &mut Stats,
    config: &mut StoreConfig,
    max_byte_size: Option<u32>,
) -> (r: Result<PruneOutcome, ApiErr>)
    requires
        sys_wf(*old(store), *old(database), *old(file_storage)),
    ensures
        final(database).inv(),
        final(file_storage).wf(),
        final(file_storage).configured == old(file_storage).configured,
        final(file_storage).path == old(file_storage).path,
        match r {
            Ok(out) => store_max(*final(store)) == max_byte_size && store_group_max(*final(store))
                == store_group_max(*old(store)) && (forall|k: int|
                0 <= k < out.evicted@.len() ==> store_contents(*old(store)).contains_key(
                    #[trigger] out.evicted@[k],
                )) && store_contents(*final(store)) == remove_all(
                store_contents(*old(store)),
                out.evicted@,
            ) && final(database).view_db() == remove_all(old(database).view_db(), out.evicted@)
                && final(file_storage).ids() == remove_set(old(file_storage).ids(), out.evicted@)
                && out.removed_files@.to_set() == old(file_storage).ids().intersect(
                out.evicted@.to_set(),
            ) && final(stats).pruned == counted(old(stats).pruned, out.evicted@.len() as int)
                && final(stats).inserted == old(stats).inserted && final(stats).deleted == old(stats).deleted && sys_wf(*final(store), *final(database), *final(file_storage)) && final(config).max_byte_size == max_byte_size,
            Err(e) => *final(stats) == *old(stats) && *final(config) == *old(config) && (match e {
                ApiErr::StoreError => final(database).view_db() == old(database).view_db()
                    && final(file_storage).ids() == old(file_storage).ids(),
                ApiErr::DatabaseError => store_max(*final(store)) == max_byte_size
                    && store_group_max(*final(store)) == store_group_max(*old(store)) && (exists|
                    ev: Seq<MsgId>,
                    i: int,
                |
                    0 <= i <= ev.len() && (forall|k: int|
                        0 <= k < ev.len() ==> store_contents(*old(store)).contains_key(
                            #[trigger] ev[k],
                        )) && store_contents(*final(store)) == remove_all(
                        store_contents(*old(store)),
                        ev,
                    ) && final(database).view_db() == remove_all(old(database).view_db(), ev.take(i))
                        && final(file_storage).ids() == remove_set(
                        old(file_storage).ids(),
                        ev.take(i),
                    )),
                _ => false,
            }),
        },
{
    let ghost c0 = store_contents(*old(store));
    let ghost db0 = old(database).view_db();
    let evicted = match store_update_store_defaults(store, max_byte_size) {
        Ok(evicted) => evicted,
        Err(_) => {
            return Err(ApiErr::StoreError);
        },
    };
    let removed_files = match remove_records(database, file_storage, &evicted) {
        Ok(removed) => removed,
        Err(e) => {
            proof {
                let i = choose|i: int|
                    0 <= i <= evicted@.len() && database.view_db() == remove_all(
                        db0,
                        evicted@.take(i),
                    ) && file_storage.ids() == remove_set(
                        old(file_storage).ids(),
                        evicted@.take(i),
                    );
                assert(0 <= i <= evicted@.len() && (forall|k: int|
                    0 <= k < evicted@.len() ==> store_contents(*old(store)).contains_key(
                        #[trigger] evicted@[k],
                    )) && store_contents(*store) == remove_all(store_contents(*old(store)), evicted@)
                    && database.view_db() == remove_all(db0, evicted@.take(i))
                    && file_storage.ids() == remove_set(old(file_storage).ids(), evicted@.take(i)));
            }
            return Err(e);
        },
    };
    let pruned_count = if evicted.len() > u32::MAX as usize {
        u32::MAX
    } else {
        evicted.len() as u32
    };
    stats.add(0, 0, pruned_count);
    proof {
        assert(counted(old(stats).pruned, pruned_count as int) == counted(
            old(stats).pruned,
            evicted@.len() as int,
        ));
    }
    config.max_byte_size = max_byte_size;
    proof {
        let c1 = store_contents(*store);
        let db1 = database.view_db();
        assert forall|x: MsgId| db1.contains_key(x) <==> c1.contains_key(x) by {
            crate::index::lemma_remove_all(db0, evicted@, x);
            crate::index::lemma_remove_all(c0, evicted@, x);
        }
        assert(db1.dom() =~= c1.dom());
        assert forall|x: MsgId| c1.contains_key(x) implies (#[trigger] db1[x]).1 == c1[x] by {
            crate::index::lemma_remove_all(db0, evicted@, x);
            crate::index::lemma_remove_all(c0, evicted@, x);
        }
        assert(sys_wf(*store, *database, *file_storage));
    }
    Ok(PruneOutcome { evicted, removed_files })
}

} // verus!
