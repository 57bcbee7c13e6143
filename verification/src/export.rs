//! The export/backup pipeline: draining the whole store into a backup on
//! disk and removing every migrated message from the live store.
//!
//! The caller drives the loop — open files, copy blobs, write lines — and
//! this module decides each step: which message migrates next, what its
//! backup line holds, and what must be undone when a backup write fails.
//! Export never partially succeeds silently: the first unrecoverable failure
//! aborts the run, and messages migrated in earlier iterations stay
//! migrated.

use crate::bytes_util::{dec_seq, lemma_dec_seq_val, u128_to_dec};
use crate::errors::ApiErr;
use crate::file_storage::FileStorage;
use crate::ids::MsgId;
use crate::index::{store_contents, store_del, store_get, store_group_max, store_max};
use crate::msg::stores_agree;
use crate::record_db::RecordDb;
use crate::stats::Stats;
use crate::stats::counted;
use vstd::prelude::*;

verus! {

/// One exported message as one line of the backup file.
pub struct StoredPacket {
    pub uuid: String,
    pub msg: String,
}

/// The dash byte used between a directory name and its counter suffix.
pub open spec fn dash_byte() -> u8 {
    45
}

/// The `k`-th candidate name for the export destination: the base name with
/// `-k` appended.
pub open spec fn candidate(base: Seq<u8>, k: nat) -> Seq<u8> {
    base + seq![dash_byte()] + dec_seq(k)
}

/// Whether some already-existing name equals `name`.
pub open spec fn taken_has(taken: Seq<Vec<u8>>, name: Seq<u8>) -> bool {
    exists|t: int| 0 <= t < taken.len() && (#[trigger] taken[t])@ == name
}

/// Distinct counters give distinct candidate names.
proof fn lemma_candidate_injective(base: Seq<u8>, j: nat, k: nat)
    requires
        candidate(base, j) == candidate(base, k),
    ensures
        j == k,
{
    lemma_dec_seq_val(j);
    lemma_dec_seq_val(k);
    let cj = candidate(base, j);
    let ck = candidate(base, k);
    assert(cj.len() == base.len() + 1 + dec_seq(j).len());
    assert(ck.len() == base.len() + 1 + dec_seq(k).len());
    assert(dec_seq(j).len() == dec_seq(k).len());
    assert forall|t: int| 0 <= t < dec_seq(j).len() implies dec_seq(j)[t] == dec_seq(k)[t] by {
        assert(cj[base.len() + 1 + t] == dec_seq(j)[t]);
        assert(ck[base.len() + 1 + t] == dec_seq(k)[t]);
    }
    assert(dec_seq(j) =~= dec_seq(k));
    assert(crate::bytes_util::dec_val(dec_seq(j)) == crate::bytes_util::dec_val(dec_seq(k)));
}

/// Resolves a unique destination name for an export: the requested name if
/// nothing by that name exists, else the first of `name-1`, `name-2`, … that
/// does not. `taken` lists the names that already exist where the export
/// will land; the result is never among them, so nothing is overwritten.
pub fn get_export_destination_directory(base: &Vec<u8>, taken: &Vec<Vec<u8>>) -> (r: Vec<u8>)
    ensures
        forall|i: int| 0 <= i < taken@.len() ==> (#[trigger] taken@[i])@ != r@,
        (forall|i: int| 0 <= i < taken@.len() ==> (#[trigger] taken@[i])@ != base@) ==> r@
            == base@,
        r@ == base@ || (exists|k: nat|
            1 <= k && r@ == candidate(base@, k) && (forall|j: nat|
                1 <= j < k ==> #[trigger] taken_has(taken@, candidate(base@, j)))),
{
    let mut hit = false;
    let mut i: usize = 0;
    let n = taken.len();
    while i < n
        invariant
            0 <= i <= taken@.len(),
            n == taken@.len(),
            hit == exists|t: int| 0 <= t < i && (#[trigger] taken@[t])@ == base@,
        decreases n - i,
    {
        if crate::wire::bytes_eq(taken[i].as_slice(), base.as_slice()) {
            hit = true;
            proof {
                assert(taken@[i as int]@ == base@);
            }
        }
        proof {
            if hit && !(exists|t: int| 0 <= t < i && (#[trigger] taken@[t])@ == base@)
                && taken@[i as int]@ != base@ {
                assert(false);
            }
        }
        i = i + 1;
    }
    if !hit {
        let mut out: Vec<u8> = Vec::new();
        out.extend_from_slice(base.as_slice());
        proof {
            assert(out@ =~= base@);
            assert forall|t: int| 0 <= t < taken@.len() implies (#[trigger] taken@[t])@
                != out@ by {
                if taken@[t]@ == base@ {
                    assert(hit);
                }
            }
        }
        return out;
    }
    let mut k: u128 = 1;
    let bound = taken.len() as u128 + 2;
    let ghost mut cands: Set<Seq<u8>> = Set::empty();
    let ghost taken_set = Set::<Seq<u8>>::new(
        |s: Seq<u8>| exists|t: int| 0 <= t < taken@.len() && (#[trigger] taken@[t])@ == s,
    );
    proof {
        assert forall|s: Seq<u8>| taken_set.contains(s) implies taken@.map_values(
            |v: Vec<u8>| v@,
        ).to_set().contains(s) by {
            let t = choose|t: int| 0 <= t < taken@.len() && (#[trigger] taken@[t])@ == s;
            assert(taken@.map_values(|v: Vec<u8>| v@)[t] == s);
        }
        assert(taken_set.subset_of(taken@.map_values(|v: Vec<u8>| v@).to_set()));
        taken@.map_values(|v: Vec<u8>| v@).lemma_cardinality_of_set();
        vstd::set_lib::lemma_len_subset(taken_set, taken@.map_values(|v: Vec<u8>| v@).to_set());
        assert(taken_set.finite());
        assert(taken_set.len() <= taken@.len());
    }
    while k < bound
        invariant
            1 <= k <= bound,
            n == taken@.len(),
            bound == taken@.len() + 2,
            exists|t: int| 0 <= t < taken@.len() && (#[trigger] taken@[t])@ == base@,
            taken_set == Set::<Seq<u8>>::new(
                |s: Seq<u8>| exists|t: int| 0 <= t < taken@.len() && (#[trigger] taken@[t])@ == s,
            ),
            taken_set.finite(),
            taken_set.len() <= taken@.len(),
            cands == Set::<Seq<u8>>::new(
                |s: Seq<u8>| exists|j: nat| 1 <= j < k && s == candidate(base@, j),
            ),
            cands.finite(),
            cands.len() == k - 1,
            cands.subset_of(taken_set),
        decreases bound - k,
    {
        let mut cand: Vec<u8> = Vec::new();
        cand.extend_from_slice(base.as_slice());
        cand.push(45);
        let digits = u128_to_dec(k);
        cand.extend_from_slice(digits.as_slice());
        proof {
            assert(cand@ =~= candidate(base@, k as nat));
        }
        let mut found = false;
        let mut t: usize = 0;
        while t < n
            invariant
                0 <= t <= taken@.len(),
                n == taken@.len(),
                cand@ == candidate(base@, k as nat),
                found == exists|u: int| 0 <= u < t && (#[trigger] taken@[u])@ == cand@,
            decreases n - t,
        {
            if crate::wire::bytes_eq(taken[t].as_slice(), cand.as_slice()) {
                found = true;
                proof {
                    assert(taken@[t as int]@ == cand@);
                }
            }
            proof {
                if found && !(exists|u: int| 0 <= u < t && (#[trigger] taken@[u])@ == cand@)
                    && taken@[t as int]@ != cand@ {
                    assert(false);
                }
            }
            t = t + 1;
        }
        if !found {
            proof {
                assert forall|u: int| 0 <= u < taken@.len() implies (#[trigger] taken@[u])@
                    != cand@ by {
                    if taken@[u]@ == cand@ {
                        assert(found);
                    }
                }
                assert forall|j: nat| 1 <= j < k implies #[trigger] taken_has(
                    taken@,
                    candidate(base@, j),
                ) by {
                    assert(cands.contains(candidate(base@, j)));
                    assert(taken_set.contains(candidate(base@, j)));
                    let t = choose|t: int|
                        0 <= t < taken@.len() && (#[trigger] taken@[t])@ == candidate(base@, j);
                    assert(0 <= t < taken@.len() && taken@[t]@ == candidate(base@, j));
                }
            }
            return cand;
        }
        proof {
            assert(taken_set.contains(cand@));
            let next = Set::<Seq<u8>>::new(
                |s: Seq<u8>| exists|j: nat| 1 <= j < k + 1 && s == candidate(base@, j),
            );
            assert forall|s: Seq<u8>| next.contains(s) implies cands.insert(cand@).contains(s) by {
                let j = choose|j: nat| 1 <= j < k + 1 && s == candidate(base@, j);
                if j < k {
                    assert(cands.contains(s));
                }
            }
            assert forall|s: Seq<u8>| cands.insert(cand@).contains(s) implies next.contains(s) by {
                if s == cand@ {
                    assert(s == candidate(base@, k as nat));
                } else {
                    let j = choose|j: nat| 1 <= j < k && s == candidate(base@, j);
                    assert(1 <= j < k + 1);
                }
            }
            assert(next =~= cands.insert(cand@));
            if cands.contains(cand@) {
                let j = choose|j: nat| 1 <= j < k && cand@ == candidate(base@, j);
                lemma_candidate_injective(base@, j, k as nat);
                assert(false);
            }
            assert(next.len() == cands.len() + 1);
            cands = next;
        }
        k = k + 1;
    }
    proof {
        vstd::set_lib::lemma_len_subset(cands, taken_set);
        assert(cands.len() <= taken_set.len());
        assert(k - 1 <= taken@.len());
        assert(k == bound);
        assert(false);
    }
    let out: Vec<u8> = Vec::new();
    out
}

/// The next message to migrate, with its backup line: the store-wide next
/// pending message, its id and text serialized as one line of
/// newline-delimited text. `None` when the store is drained.
pub fn export_next<D: RecordDb>(store: &msg_store::store::Store, database: &mut D) -> (r: Result<
    Option<(MsgId, Vec<u8>)>,
    ApiErr,
>)
    requires
        stores_agree(*store, *old(database)),
    ensures
        final(database).view_db() == old(database).view_db(),
        final(database).inv(),
        match r {
            Ok(Some((id, line))) => store_contents(*store).contains_key(id) && line@ == json_line(
                id,
                old(database).view_db()[id].0,
            ),
            Ok(None) => store_contents(*store) =~= Map::empty(),
            Err(e) => e == ApiErr::StoreError || e == ApiErr::DatabaseError
                || e == ApiErr::SyncError,
        },
{
    let found = match store_get(store, None, None, false) {
        Ok(found) => found,
        Err(_) => {
            return Err(ApiErr::StoreError);
        },
    };
    let uuid = match found {
        Some(uuid) => uuid,
        None => {
            return Ok(None);
        },
    };
    let record = match database.get(uuid) {
        Ok(Some(record)) => record,
        Ok(None) => {
            proof {
                assert(false);
            }
            return Err(ApiErr::SyncError);
        },
        Err(_) => {
            return Err(ApiErr::DatabaseError);
        },
    };
    let line = export_line(uuid, record.payload.as_slice());
    Ok(Some((uuid, line)))
}

/// The escape of one byte inside a JSON string: quote and backslash get a
/// backslash, common control characters their short escapes, other control
/// characters the four-digit form, and everything else stands as itself.
pub open spec fn esc(b: u8) -> Seq<u8> {
    if b == 34 {
        seq![92u8, 34u8]
    } else if b == 92 {
        seq![92u8, 92u8]
    } else if b == 10 {
        seq![92u8, 110u8]
    } else if b == 13 {
        seq![92u8, 114u8]
    } else if b == 9 {
        seq![92u8, 116u8]
    } else if b == 8 {
        seq![92u8, 98u8]
    } else if b == 12 {
        seq![92u8, 102u8]
    } else if b < 32 {
        seq![92u8, 117u8, 48u8, 48u8, hex_digit((b / 16) as nat), hex_digit((b % 16) as nat)]
    } else {
        seq![b]
    }
}

/// The lowercase hexadecimal digit for `n < 16`.
pub open spec fn hex_digit(n: nat) -> u8 {
    if n < 10 {
        (n + 48) as u8
    } else {
        (n + 87) as u8
    }
}

/// A byte string escaped for a JSON string literal.
pub open spec fn json_escape(s: Seq<u8>) -> Seq<u8>
    decreases s.len(),
{
    if s.len() == 0 {
        Seq::empty()
    } else {
        json_escape(s.drop_last()) + esc(s.last())
    }
}

/// One backup line: `{"uuid":"<id>","msg":"<escaped text>"}` and a newline.
pub open spec fn json_line(id: MsgId, msg: Seq<u8>) -> Seq<u8> {
    seq![123u8, 34u8, 117u8, 117u8, 105u8, 100u8, 34u8, 58u8, 34u8] + id.text() + seq![
        34u8,
        44u8,
        34u8,
        109u8,
        115u8,
        103u8,
        34u8,
        58u8,
        34u8,
    ] + json_escape(msg) + seq![34u8, 125u8, 10u8]
}

/// Appends the escape of `b` to `out`.
fn push_escaped(out: &mut Vec<u8>, b: u8)
    ensures
        final(out)@ == old(out)@ + esc(b),
{
    if b == 34 {
        out.push(92);
        out.push(34);
    } else if b == 92 {
        out.push(92);
        out.push(92);
    } else if b == 10 {
        out.push(92);
        out.push(110);
    } else if b == 13 {
        out.push(92);
        out.push(114);
    } else if b == 9 {
        out.push(92);
        out.push(116);
    } else if b == 8 {
        out.push(92);
        out.push(98);
    } else if b == 12 {
        out.push(92);
        out.push(102);
    } else if b < 32 {
        out.push(92);
        out.push(117);
        out.push(48);
        out.push(48);
        let hi = b / 16;
        let lo = b % 16;
        out.push(if hi < 10 { hi + 48 } else { hi + 87 });
        out.push(if lo < 10 { lo + 48 } else { lo + 87 });
    } else {
        out.push(b);
    }
    proof {
        assert(out@ =~= old(out)@ + esc(b));
    }
}

/// Serializes one message as one backup line.
pub fn export_line(id: MsgId, msg: &[u8]) -> (r: Vec<u8>)
    ensures
        r@ == json_line(id, msg@),
{
    let mut out: Vec<u8> = Vec::new();
    out.push(123);
    out.push(34);
    out.push(117);
    out.push(117);
    out.push(105);
    out.push(100);
    out.push(34);
    out.push(58);
    out.push(34);
    let id_text = id.to_text();
    out.extend_from_slice(id_text.as_slice());
    out.push(34);
    out.push(44);
    out.push(34);
    out.push(109);
    out.push(115);
    out.push(103);
    out.push(34);
    out.push(58);
    out.push(34);
    let ghost prefix = out@;
    let mut i: usize = 0;
    let n = msg.len();
    proof {
        assert(msg@.take(0) =~= Seq::<u8>::empty());
        assert(out@ =~= prefix + json_escape(msg@.take(0)));
    }
    while i < n
        invariant
            0 <= i <= msg@.len(),
            n == msg@.len(),
            out@ == prefix + json_escape(msg@.take(i as int)),
        decreases n - i,
    {
        let b = msg[i];
        push_escaped(&mut out, b);
        proof {
            let t1 = msg@.take(i as int + 1);
            assert(t1.drop_last() =~= msg@.take(i as int));
            assert(t1.last() == msg@[i as int]);
            assert(out@ =~= prefix + json_escape(t1));
        }
        i = i + 1;
    }
    out.push(34);
    out.push(125);
    out.push(10);
    proof {
        assert(msg@.take(n as int) =~= msg@);
        assert(out@ =~= json_line(id, msg@));
    }
    out
}

/// Commits one migrated message after its line (or record) reached the
/// backup: removes it from the priority index and the live record store,
/// counting one deletion. Once the index forgot the id, a record-store
/// failure is fatal.
pub fn export_commit<D: RecordDb>(
    store: &mut msg_store::store::Store,
    database: &mut D,
    stats: &mut Stats,
    uuid: MsgId,
) -> (r: Result<(), ApiErr>)
    requires
        old(database).inv(),
    ensures
        final(database).inv(),
        store_contents(*final(store)) == store_contents(*old(store)).remove(uuid),
        store_max(*final(store)) == store_max(*old(store)),
        store_group_max(*final(store)) == store_group_max(*old(store)),
        match r {
            Ok(()) => final(database).view_db() == old(database).view_db().remove(uuid) && final(stats).deleted == counted(old(stats).deleted, 1) && final(stats).inserted == old(stats).inserted && final(stats).pruned == old(stats).pruned,
            Err(e) => e == ApiErr::DatabaseError && final(database).view_db() == old(database).view_db() && *final(stats) == *old(stats),
        },
{
    store_del(store, uuid);
    match database.del(uuid) {
        Ok(()) => {},
        Err(e) => {
            return Err(e);
        },
    }
    stats.add(0, 1, 0);
    Ok(())
}

/// The next message to migrate into a backup record store: its id, payload,
/// accounted byte size, and whether a blob file must be copied first.
/// `None` when the store is drained.
pub fn export_db_next<D: RecordDb>(
    store: &msg_store::store::Store,
    database: &mut D,
    file_storage: &FileStorage,
) -> (r: Result<Option<(MsgId, Vec<u8>, u32, bool)>, ApiErr>)
    requires
        stores_agree(*store, *old(database)),
    ensures
        final(database).view_db() == old(database).view_db(),
        final(database).inv(),
        match r {
            Ok(Some((id, payload, byte_size, has_blob))) => store_contents(*store).contains_key(id)
                && old(database).view_db()[id] == (payload@, byte_size) && has_blob
                == file_storage.ids().contains(id),
            Ok(None) => store_contents(*store) =~= Map::empty(),
            Err(e) => e == ApiErr::StoreError || e == ApiErr::DatabaseError
                || e == ApiErr::SyncError,
        },
{
    let found = match store_get(store, None, None, false) {
        Ok(found) => found,
        Err(_) => {
            return Err(ApiErr::StoreError);
        },
    };
    let uuid = match found {
        Some(uuid) => uuid,
        None => {
            return Ok(None);
        },
    };
    let record = match database.get(uuid) {
        Ok(Some(record)) => record,
        Ok(None) => {
            proof {
                assert(false);
            }
            return Err(ApiErr::SyncError);
        },
        Err(_) => {
            return Err(ApiErr::DatabaseError);
        },
    };
    let has_blob = file_storage.contains(uuid);
    Ok(Some((uuid, record.payload, record.byte_size, has_blob)))
}

/// Where a backup-database migration step failed: at the backup write, which
/// the caller rolls back by restoring the blob file, or at the live record
/// store afterwards, which is fatal.
#[derive(Debug, Clone, Copy, PartialEq, Eq, Structural)]
pub enum ExportFault {
    BackupWrite,
    LiveStore,
}

/// Commits one migration into a backup record store, after the caller copied
/// the blob file (if any) under the backup root: drops the live index entry,
/// writes the backup record, then removes the message from the live store.
///
/// The blob copy and the backup write are not transactional with each other:
/// when the backup write fails, the live index entry is restored and the
/// caller must copy the destination blob file back to the source path and
/// delete the destination copy before halting — the one explicit rollback in
/// the system.
pub fn export_db_commit<D: RecordDb, B: RecordDb>(
    store: &mut msg_store::store::Store,
    database: &mut D,
    backup: &mut B,
    file_storage: &mut FileStorage,
    stats: &mut Stats,
    uuid: MsgId,
    payload: Vec<u8>,
    byte_size: u32,
) -> (r: Result<(), ExportFault>)
    requires
        old(database).inv(),
        old(backup).inv(),
        old(file_storage).wf(),
    ensures
        final(database).inv(),
        final(backup).inv(),
        final(file_storage).wf(),
        final(file_storage).configured == old(file_storage).configured,
        final(file_storage).path == old(file_storage).path,
        match r {
            Ok(()) => final(backup).view_db() == old(backup).view_db().insert(
                uuid,
                (payload@, byte_size),
            ) && final(file_storage).ids() == old(file_storage).ids().remove(uuid) && final(database).view_db() == old(database).view_db().remove(uuid) && store_contents(*final(store))
                == store_contents(*old(store)).remove(uuid) && final(stats).deleted == counted(
                old(stats).deleted,
                1,
            ) && final(stats).inserted == old(stats).inserted && final(stats).pruned == old(stats).pruned,
            Err(ExportFault::BackupWrite) => final(backup).view_db() == old(backup).view_db()
                && final(file_storage).ids() == old(file_storage).ids() && final(database).view_db() == old(database).view_db() && store_contents(*final(store))
                == store_contents(*old(store)) && *final(stats) == *old(stats),
            Err(ExportFault::LiveStore) => final(backup).view_db() == old(backup).view_db().insert(
                uuid,
                (payload@, byte_size),
            ) && final(file_storage).ids() == old(file_storage).ids().remove(uuid) && final(database).view_db() == old(database).view_db() && store_contents(*final(store))
                == store_contents(*old(store)) && *final(stats) == *old(stats),
        },
{
    let had = file_storage.remove(uuid);
    match backup.put(uuid, payload, byte_size) {
        Ok(()) => {},
        Err(_) => {
            // Restore the live file index; the caller restores the file.
            if had {
                file_storage.insert(uuid);
                proof {
                    assert(file_storage.ids() =~= old(file_storage).ids());
                }
            } else {
                proof {
                    assert(file_storage.ids() =~= old(file_storage).ids());
                }
            }
            return Err(ExportFault::BackupWrite);
        },
    }
    match database.del(uuid) {
        Ok(()) => {},
        Err(_) => {
            return Err(ExportFault::LiveStore);
        },
    }
    store_del(store, uuid);
    stats.add(0, 1, 0);
    Ok(())
}

} // verus!