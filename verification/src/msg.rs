//! Message operations: ingestion, retrieval and deletion, coordinated across
//! the priority index, the persistent record store and the file-blob index.

pub mod add;
pub mod get;
pub mod rm;

use crate::errors::ApiErr;
use crate::file_storage::FileStorage;
use crate::ids::MsgId;
use crate::index::{remove_all, remove_set, store_contents, lemma_remove_set};
use crate::record_db::RecordDb;
use vstd::prelude::*;

verus! {

/// One of two alternatives.
pub enum Either<A, B> {
    A(A),
    B(B),
}

/// The record store holds exactly the ids the priority index holds, and
/// accounts each with the same byte size. This is the conservation property:
/// with it, the bytes the index budgets for are exactly the bytes the
/// records claim.
pub open spec fn stores_agree<D: RecordDb>(store: msg_store::store::Store, db: D) -> bool {
    &&& db.inv()
    &&& db.view_db().dom() == store_contents(store).dom()
    &&& forall|id: MsgId|
        store_contents(store).contains_key(id) ==> (#[trigger] db.view_db()[id]).1
            == store_contents(store)[id]
}

/// The cross-store invariant the coordination layer maintains: the priority
/// index and the record store agree, and the file-blob index is well formed.
pub open spec fn sys_wf<D: RecordDb>(
    store: msg_store::store::Store,
    db: D,
    fs: FileStorage,
) -> bool {
    &&& stores_agree(store, db)
    &&& fs.wf()
}

/// Applies one eviction cascade: removes each id's record from the record
/// store and its entry from the file-blob index. Returns the ids whose blob
/// files the caller must now remove from disk: exactly the evicted ids that
/// were indexed. A record-store failure is fatal and stops the cascade where
/// it stands.
pub fn remove_records<D: RecordDb>(
    database: &mut D,
    file_storage: &mut FileStorage,
    ids: &Vec<MsgId>,
) -> (r: Result<Vec<MsgId>, ApiErr>)
    requires
        old(database).inv(),
        old(file_storage).wf(),
    ensures
        final(database).inv(),
        final(file_storage).wf(),
        final(file_storage).configured == old(file_storage).configured,
        final(file_storage).path == old(file_storage).path,
        match r {
            Ok(removed) => final(database).view_db() == remove_all(old(database).view_db(), ids@)
                && final(file_storage).ids() == remove_set(old(file_storage).ids(), ids@)
                && removed@.to_set() == old(file_storage).ids().intersect(ids@.to_set()),
            Err(e) => e == ApiErr::DatabaseError && (exists|i: int|
                0 <= i <= ids@.len() && final(database).view_db() == remove_all(
                    old(database).view_db(),
                    ids@.take(i),
                ) && final(file_storage).ids() == remove_set(
                    old(file_storage).ids(),
                    ids@.take(i),
                )),
        },
{
    let ghost db0 = old(database).view_db();
    let ghost fs0 = old(file_storage).ids();
    let mut removed: Vec<MsgId> = Vec::new();
    let mut i: usize = 0;
    let n = ids.len();
    proof {
        assert(ids@.take(0) =~= Seq::<MsgId>::empty());
        assert(database.view_db() =~= remove_all(db0, ids@.take(0)));
        assert(file_storage.ids() =~= remove_set(fs0, ids@.take(0)));
        assert(removed@.to_set() =~= fs0.intersect(ids@.take(0).to_set()));
    }
    while i < n
        invariant
            0 <= i <= ids@.len(),
            n == ids@.len(),
            db0 == old(database).view_db(),
            fs0 == old(file_storage).ids(),
            database.inv(),
            file_storage.wf(),
            file_storage.configured == old(file_storage).configured,
            file_storage.path == old(file_storage).path,
            database.view_db() == remove_all(db0, ids@.take(i as int)),
            file_storage.ids() == remove_set(fs0, ids@.take(i as int)),
            removed@.to_set() == fs0.intersect(ids@.take(i as int).to_set()),
        decreases n - i,
    {
        let id = ids[i];
        match database.del(id) {
            Ok(()) => {},
            Err(e) => {
                proof {
                    assert(0 <= i as int <= ids@.len() && database.view_db() == remove_all(
                        db0,
                        ids@.take(i as int),
                    ) && file_storage.ids() == remove_set(fs0, ids@.take(i as int)));
                }
                return Err(e);
            },
        }
        let was = file_storage.remove(id);
        let ghost removed_before = removed@;
        if was {
            removed.push(id);
        }
        proof {
            let t1 = ids@.take(i as int + 1);
            let t0 = ids@.take(i as int);
            assert(t1.drop_last() =~= t0);
            assert(t1.last() == ids@[i as int]);
            assert(t1[i as int] == id);
            assert(database.view_db() == remove_all(db0, t1));
            assert(file_storage.ids() == remove_set(fs0, t1));
            lemma_remove_set(fs0, t0, id);
            assert(was == (fs0.contains(id) && !t0.contains(id)));
            assert forall|x: MsgId|
                t1.to_set().contains(x) implies t0.to_set().insert(id).contains(x) by {
                let k = choose|k: int| 0 <= k < t1.len() && t1[k] == x;
                if k < i {
                    assert(t0[k] == x);
                }
            }
            assert forall|x: MsgId|
                t0.to_set().insert(id).contains(x) implies t1.to_set().contains(x) by {
                if x == id {
                    assert(t1[i as int] == x);
                } else {
                    let k = choose|k: int| 0 <= k < t0.len() && t0[k] == x;
                    assert(t1[k] == x);
                }
            }
            assert(t1.to_set() =~= t0.to_set().insert(id));
            if was {
                assert forall|x: MsgId|
                    removed@.to_set().contains(x) implies removed_before.to_set().insert(
                    id,
                ).contains(x) by {
                    let k = choose|k: int| 0 <= k < removed@.len() && removed@[k] == x;
                    if k < removed@.len() - 1 {
                        assert(removed_before[k] == x);
                    }
                }
                assert forall|x: MsgId|
                    removed_before.to_set().insert(id).contains(x) implies removed@.to_set()
                    .contains(x) by {
                    if x == id {
                        assert(removed@[removed@.len() - 1] == x);
                    } else {
                        let k = choose|k: int|
                            0 <= k < removed_before.len() && removed_before[k] == x;
                        assert(removed@[k] == x);
                    }
                }
                assert(removed@.to_set() =~= removed_before.to_set().insert(id));
                assert(fs0.intersect(t1.to_set()) =~= fs0.intersect(t0.to_set()).insert(id));
                assert(removed@.to_set() =~= fs0.intersect(t1.to_set()));
            } else {
                assert(removed@ == removed_before);
                assert(fs0.intersect(t1.to_set()) =~= fs0.intersect(t0.to_set()));
                assert(removed@.to_set() =~= fs0.intersect(t1.to_set()));
            }
        }
        i = i + 1;
    }
    proof {
        assert(ids@.take(n as int) =~= ids@);
    }
    Ok(removed)
}

} // verus!
