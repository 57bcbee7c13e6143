//! Explicit deletion of one message, by id.

use crate::errors::ApiErr;
use crate::file_storage::FileStorage;
use crate::ids::MsgId;
use crate::index::{store_contents, store_del, store_get, store_group_max, store_max};
use crate::msg::sys_wf;
use crate::record_db::RecordDb;
use crate::stats::Stats;
use crate::stats::counted;
use vstd::prelude::*;

verus! {

/// Deletes `uuid` from the priority index, the record store and the
/// file-blob index, counting one deletion. Deleting an id the index does not
/// hold is a no-op: nothing changes, the statistics included, and no error
/// is reported. Returns whether the caller must remove the blob file for
/// `uuid` from disk, which is exactly when the id was indexed there.
///
/// Once the priority index has forgotten the id, a record-store failure is
/// fatal: the deletion must complete everywhere or the process halts.
pub fn handle<D: RecordDb>(
    store: &mut msg_store::store::Store,
    database: &mut D,
    file_storage: &mut FileStorage,
    stats: &mut Stats,
    uuid: MsgId,
) -> (r: Result<bool, ApiErr>)
    requires
        old(database).inv(),
        old(file_storage).wf(),
    ensures
        final(database).inv(),
        final(file_storage).wf(),
        final(file_storage).configured == old(file_storage).configured,
        final(file_storage).path == old(file_storage).path,
        store_max(*final(store)) == store_max(*old(store)),
        store_group_max(*final(store)) == store_group_max(*old(store)),
        match r {
            Ok(remove_file) => if store_contents(*old(store)).contains_key(uuid) {
                store_contents(*final(store)) == store_contents(*old(store)).remove(uuid) && final(database).view_db() == old(database).view_db().remove(uuid) && final(file_storage).ids()
                    == old(file_storage).ids().remove(uuid) && remove_file == old(file_storage).ids().contains(uuid) && final(stats).deleted == counted(old(stats).deleted, 1)
                    && final(stats).inserted == old(stats).inserted && final(stats).pruned == old(stats).pruned
            } else {
                store_contents(*final(store)) == store_contents(*old(store)) && final(database).view_db() == old(database).view_db() && final(file_storage).ids() == old(file_storage).ids() && remove_file == false && *final(stats) == *old(stats)
            },
            Err(e) => e == ApiErr::DatabaseError && store_contents(*old(store)).contains_key(
                uuid,
            ) && store_contents(*final(store)) == store_contents(*old(store)).remove(uuid)
                && final(database).view_db() == old(database).view_db() && final(file_storage).ids() == old(file_storage).ids() && *final(stats) == *old(stats),
        },
        (sys_wf(*old(store), *old(database), *old(file_storage)) && r is Ok) ==> sys_wf(
            *final(store),
            *final(database),
            *final(file_storage),
        ),
{
    let present = match store_get(store, Some(uuid), None, false) {
        Ok(found) => found.is_some(),
        Err(_) => {
            proof {
                assert(false);
            }
            false
        },
    };
    if !present {
        return Ok(false);
    }
    store_del(store, uuid);
    match database.del(uuid) {
        Ok(()) => {},
        Err(e) => {
            return Err(e);
        },
    }
    let remove_file = file_storage.remove(uuid);
    stats.add(0, 1, 0);
    proof {
        if sys_wf(*old(store), *old(database), *old(file_storage)) {
            let c1 = store_contents(*store);
            let db1 = database.view_db();
            assert(db1.dom() =~= c1.dom());
            assert forall|x: MsgId| c1.contains_key(x) implies (#[trigger] db1[x]).1 == c1[x] by {
                assert(x != uuid);
            }
            assert(sys_wf(*store, *database, *file_storage));
        }
    }
    Ok(remove_file)
}

} // verus!
