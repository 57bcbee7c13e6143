//! The system's stated properties, proved once and for all over the spec
//! functions and views the public contracts use.

use crate::ids::MsgId;
use crate::index::{remove_all, remove_set, store_contents, sum_sizes, lemma_remove_all,
    lemma_remove_set};
use crate::msg::get::resp_inline;
use crate::msg::stores_agree;
use crate::record_db::RecordDb;
use crate::wire::qmark;
use vstd::prelude::*;

verus! {

/// The per-message byte sizes the record store accounts for.
pub open spec fn db_sizes(view: Map<MsgId, (Seq<u8>, u32)>) -> Map<MsgId, u32> {
    view.map_values(|p: (Seq<u8>, u32)| p.1)
}

/// Admission conservation: whenever the priority index and the record store
/// agree — which every coordination operation preserves — the sum of the
/// byte sizes the record store holds for live ids equals the sum of the byte
/// sizes the priority index accounts for.
pub proof fn lemma_admission_conservation<D: RecordDb>(store: msg_store::store::Store, db: D)
    requires
        stores_agree(store, db),
        store_contents(store).dom().finite(),
    ensures
        sum_sizes(db_sizes(db.view_db())) == sum_sizes(store_contents(store)),
{
    assert(db_sizes(db.view_db()) =~= store_contents(store));
}

/// Blob index invariant, the library's half: an id is indexed exactly when
/// its blob file exists on disk, provided the caller performs exactly the
/// file removals the library instructs. If the disk's file set equals the
/// index, and a cascade removes `ids` from the index while the caller
/// removes from disk exactly the returned files (the indexed ids among
/// `ids`), the two are equal again. The insertion side is immediate: the
/// index learns an id only after its file was fully written.
pub proof fn lemma_blob_index_matches_disk(fs0: Set<MsgId>, ids: Seq<MsgId>, disk: Set<MsgId>)
    requires
        disk == fs0,
    ensures
        remove_set(fs0, ids) == disk.difference(fs0.intersect(ids.to_set())),
{
    assert forall|x: MsgId|
        remove_set(fs0, ids).contains(x) <==> disk.difference(
            fs0.intersect(ids.to_set()),
        ).contains(x) by {
        lemma_remove_set(fs0, ids, x);
    }
    assert(remove_set(fs0, ids) =~= disk.difference(fs0.intersect(ids.to_set())));
}

/// Eviction propagation: an id the admission cascade evicted — other than
/// the id just admitted — is absent afterwards from the priority index, the
/// record store, and the file-blob index; the insert's own contract counts
/// each eviction in `Stats.deleted` (or `Stats.pruned` for a policy change).
pub proof fn lemma_eviction_propagation(
    c0: Map<MsgId, u32>,
    db0: Map<MsgId, (Seq<u8>, u32)>,
    fs0: Set<MsgId>,
    evicted: Seq<MsgId>,
    uuid: MsgId,
    byte_size: u32,
    msg: Seq<u8>,
    x: MsgId,
)
    requires
        evicted.contains(x),
        x != uuid,
    ensures
        !remove_all(c0, evicted).insert(uuid, byte_size).contains_key(x),
        !remove_all(db0, evicted).insert(uuid, (msg, byte_size)).contains_key(x),
        !remove_set(fs0, evicted).contains(x),
{
    lemma_remove_all(c0, evicted, x);
    lemma_remove_all(db0, evicted, x);
    lemma_remove_set(fs0, evicted, x);
}

/// A committed blob insert restores the agreement of the stores: after
/// admission put the id in the priority index but not yet in the record
/// store, writing the record with the same accounted byte size makes the two
/// agree on every id again.
pub proof fn lemma_blob_commit_restores_agreement(
    c: Map<MsgId, u32>,
    db_view: Map<MsgId, (Seq<u8>, u32)>,
    uuid: MsgId,
    msg: Seq<u8>,
    byte_size: u32,
)
    requires
        c.contains_key(uuid),
        c[uuid] == byte_size,
        db_view.dom() == c.dom().remove(uuid),
        forall|id: MsgId|
            db_view.contains_key(id) ==> (#[trigger] db_view[id]).1 == c[id],
    ensures
        db_view.insert(uuid, (msg, byte_size)).dom() == c.dom(),
        forall|id: MsgId|
            c.contains_key(id) ==> (#[trigger] db_view.insert(uuid, (msg, byte_size))[id]).1
                == c[id],
{
    assert(db_view.insert(uuid, (msg, byte_size)).dom() =~= c.dom());
}

/// Round trip for inline messages: the response `uuid=<id>?<body>` decodes
/// back to the body it was made from — the first `?` of the response sits
/// right after the id, and everything after it is the stored body.
pub proof fn lemma_round_trip_inline(id: MsgId, msg: Seq<u8>)
    ensures
        crate::bytes_util::find(resp_inline(id, msg), qmark()) == 5 + id.text().len(),
        resp_inline(id, msg).skip(
            crate::bytes_util::find(resp_inline(id, msg), qmark()) + 1,
        ) == msg,
{
    let resp = resp_inline(id, msg);
    let q = 5 + id.text().len() as int;
    crate::ids::lemma_id_text_round_trip(id);
    assert forall|k: int| 0 <= k < q implies resp[k] != qmark() by {
        if k < 5 {
            assert(crate::msg::get::lit_uuid_eq()[k] != 63);
        } else {
            assert(resp[k] == id.text()[k - 5]);
            assert(crate::bytes_util::is_digit(id.text()[k - 5]) || id.text()[k - 5]
                == crate::ids::dash());
        }
    }
    assert(resp[q] == qmark());
    crate::bytes_util::lemma_find_unique(resp, qmark(), q);
    assert(resp.skip(q + 1) =~= msg);
}

} // verus!
