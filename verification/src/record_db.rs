//! The persistent record store: durable id → (payload, byte size) storage.
//!
//! The backend is pluggable, as a closed capability interface: callers reach
//! it only through [`RecordDb`]. The crate ships [`MemDb`], the in-memory
//! map backend, verified against the interface contract; a caller may plug a
//! durable backend (an embedded database) by implementing the same trait.

use crate::errors::ApiErr;
use crate::ids::MsgId;
use vstd::prelude::*;

verus! {

/// One stored record: the message payload and the byte size it is accounted
/// with in the priority index (which may differ from the payload's length
/// when a byte-size override was supplied for a blob message).
pub struct Record {
    pub payload: Vec<u8>,
    pub byte_size: u32,
}

/// What a listing of a record store must hold: every listed id is stored
/// with that byte size, and every stored id is listed.
pub open spec fn lists_records(view: Map<MsgId, (Seq<u8>, u32)>, list: Seq<(MsgId, u32)>) -> bool {
    &&& forall|i: int|
        0 <= i < list.len() ==> view.contains_key((#[trigger] list[i]).0) && view[list[i].0].1
            == list[i].1
    &&& forall|id: MsgId|
        view.contains_key(id) ==> exists|i: int| 0 <= i < list.len() && (#[trigger] list[i]).0 == id
}

/// What a record store holds, as a map from id to payload bytes and
/// accounted byte size.
pub trait RecordDb: Sized {
    /// The backend's own well-formedness; constructors establish it and
    /// every operation preserves it.
    spec fn inv(&self) -> bool;

    /// The records the store holds.
    spec fn view_db(&self) -> Map<MsgId, (Seq<u8>, u32)>;

    /// Writes the record for `id`, replacing any previous one.
    /// On failure the store is unchanged; the caller treats that as fatal.
    fn put(&mut self, id: MsgId, payload: Vec<u8>, byte_size: u32) -> (r: Result<(), ApiErr>)
        requires
            old(self).inv(),
        ensures
            final(self).inv(),
            match r {
                Ok(()) => final(self).view_db() == old(self).view_db().insert(
                    id,
                    (payload@, byte_size),
                ),
                Err(e) => final(self).view_db() == old(self).view_db()
                    && e == ApiErr::DatabaseError,
            },
    ;

    /// Reads the record for `id`; `None` when the store has none.
    fn get(&mut self, id: MsgId) -> (r: Result<Option<Record>, ApiErr>)
        requires
            old(self).inv(),
        ensures
            final(self).inv(),
            final(self).view_db() == old(self).view_db(),
            match r {
                Ok(Some(rec)) => old(self).view_db().contains_key(id) && old(self).view_db()[id]
                    == (rec.payload@, rec.byte_size),
                Ok(None) => !old(self).view_db().contains_key(id),
                Err(e) => e == ApiErr::DatabaseError,
            },
    ;

    /// Removes the record for `id`; removing an absent id is a no-op.
    /// On failure the store is unchanged; the caller treats that as fatal.
    fn del(&mut self, id: MsgId) -> (r: Result<(), ApiErr>)
        requires
            old(self).inv(),
        ensures
            final(self).inv(),
            match r {
                Ok(()) => final(self).view_db() == old(self).view_db().remove(id),
                Err(e) => final(self).view_db() == old(self).view_db()
                    && e == ApiErr::DatabaseError,
            },
    ;

    /// Lists every stored id with its accounted byte size, for repopulating
    /// the priority index at startup.
    fn fetch(&mut self) -> (r: Result<Vec<(MsgId, u32)>, ApiErr>)
        requires
            old(self).inv(),
        ensures
            final(self).inv(),
            final(self).view_db() == old(self).view_db(),
            match r {
                Ok(list) => lists_records(old(self).view_db(), list@),
                Err(e) => e == ApiErr::DatabaseError,
            },
    ;
}

/// One entry of the in-memory backend.
pub struct MemEntry {
    pub id: MsgId,
    pub payload: Vec<u8>,
    pub byte_size: u32,
}

/// The map an entry sequence denotes, later entries replacing earlier ones.
pub open spec fn entries_map(s: Seq<MemEntry>) -> Map<MsgId, (Seq<u8>, u32)>
    decreases s.len(),
{
    if s.len() == 0 {
        Map::empty()
    } else {
        entries_map(s.drop_last()).insert(s.last().id, (s.last().payload@, s.last().byte_size))
    }
}

/// No id occurs twice in the entry sequence.
pub open spec fn unique_ids(s: Seq<MemEntry>) -> bool {
    forall|i: int, j: int| 0 <= i < j < s.len() ==> (#[trigger] s[i]).id != (#[trigger] s[j]).id
}

/// Each entry of a duplicate-free sequence is in the map it denotes.
pub proof fn lemma_entries_map_index(s: Seq<MemEntry>, i: int)
    requires
        unique_ids(s),
        0 <= i < s.len(),
    ensures
        entries_map(s).contains_key(s[i].id),
        entries_map(s)[s[i].id] == (s[i].payload@, s[i].byte_size),
    decreases s.len(),
{
    if i < s.len() - 1 {
        assert(unique_ids(s.drop_last()));
        assert(s.drop_last()[i] == s[i]);
        lemma_entries_map_index(s.drop_last(), i);
        assert(s[i].id != s.last().id);
    }
}

/// Every key of the denoted map comes from some entry.
pub proof fn lemma_entries_map_key(s: Seq<MemEntry>, id: MsgId)
    requires
        entries_map(s).contains_key(id),
    ensures
        exists|i: int| 0 <= i < s.len() && (#[trigger] s[i]).id == id,
    decreases s.len(),
{
    if s.len() > 0 {
        if s.last().id == id {
            assert(s[s.len() - 1].id == id);
        } else {
            lemma_entries_map_key(s.drop_last(), id);
            let i = choose|i: int|
                0 <= i < s.drop_last().len() && (#[trigger] s.drop_last()[i]).id == id;
            assert(s[i].id == id);
        }
    }
}

/// Removing the entry at `i` removes exactly its id from the denoted map.
pub proof fn lemma_entries_map_remove(s: Seq<MemEntry>, i: int)
    requires
        unique_ids(s),
        0 <= i < s.len(),
    ensures
        entries_map(s.remove(i)) =~= entries_map(s).remove(s[i].id),
        unique_ids(s.remove(i)),
    decreases s.len(),
{
    assert forall|a: int, b: int|
        0 <= a < b < s.remove(i).len() implies (#[trigger] s.remove(i)[a]).id != (#[trigger] s.remove(
        i,
    )[b]).id by {
        let a0 = if a < i { a } else { a + 1 };
        let b0 = if b < i { b } else { b + 1 };
        assert(s.remove(i)[a] == s[a0]);
        assert(s.remove(i)[b] == s[b0]);
    }
    if i == s.len() - 1 {
        assert(s.remove(i) =~= s.drop_last());
        if entries_map(s.drop_last()).contains_key(s[i].id) {
            lemma_entries_map_key(s.drop_last(), s[i].id);
            let j = choose|j: int|
                0 <= j < s.drop_last().len() && (#[trigger] s.drop_last()[j]).id == s[i].id;
            assert(s[j].id == s[i].id);
            assert(false);
        }
        assert(entries_map(s.drop_last()) =~= entries_map(s).remove(s[i].id));
    } else {
        assert(unique_ids(s.drop_last()));
        lemma_entries_map_remove(s.drop_last(), i);
        assert(s.remove(i).drop_last() =~= s.drop_last().remove(i));
        assert(s.remove(i).last() == s.last());
        assert(entries_map(s.remove(i)) == entries_map(s.drop_last().remove(i)).insert(
            s.last().id,
            (s.last().payload@, s.last().byte_size),
        ));
        assert(s[i].id != s.last().id);
        assert(entries_map(s.drop_last()).remove(s[i].id).insert(
            s.last().id,
            (s.last().payload@, s.last().byte_size),
        ) =~= entries_map(s).remove(s[i].id));
    }
}

/// The in-memory record store: a flat map held in process memory. Suited to
/// stores whose contents need not outlive the process.
pub struct MemDb {
    entries: Vec<MemEntry>,
}

impl MemDb {
    /// An empty in-memory store.
    pub fn new() -> (r: MemDb)
        ensures
            r.inv(),
            r.view_db() == Map::<MsgId, (Seq<u8>, u32)>::empty(),
    {
        let entries: Vec<MemEntry> = Vec::new();
        proof {
            assert(entries_map(entries@) =~= Map::<MsgId, (Seq<u8>, u32)>::empty());
        }
        MemDb { entries }
    }

    /// Index of the entry for `id`, when one exists.
    fn find_entry(&self, id: MsgId) -> (r: Option<usize>)
        ensures
            match r {
                Some(i) => 0 <= i < self.entries@.len() && self.entries@[i as int].id == id,
                None => forall|i: int|
                    0 <= i < self.entries@.len() ==> (#[trigger] self.entries@[i]).id != id,
            },
    {
        let mut i: usize = 0;
        while i < self.entries.len()
            invariant
                0 <= i <= self.entries@.len(),
                forall|k: int| 0 <= k < i ==> (#[trigger] self.entries@[k]).id != id,
            decreases self.entries@.len() - i,
        {
            if self.entries[i].id.priority == id.priority && self.entries[i].id.timestamp
                == id.timestamp && self.entries[i].id.sequence == id.sequence {
                assert(self.entries@[i as int].id == id);
                return Some(i);
            }
            i = i + 1;
        }
        None
    }

    /// Removes the entry for `id` when present; reports whether one was.
    fn del_inner(&mut self, id: MsgId) -> (r: bool)
        requires
            old(self).inv(),
        ensures
            final(self).inv(),
            final(self).view_db() == old(self).view_db().remove(id),
            r == old(self).view_db().contains_key(id),
    {
        match self.find_entry(id) {
            Some(i) => {
                proof {
                    lemma_entries_map_index(self.entries@, i as int);
                    lemma_entries_map_remove(self.entries@, i as int);
                }
                let _ = self.entries.remove(i);
                true
            },
            None => {
                proof {
                    if self.view_db().contains_key(id) {
                        lemma_entries_map_key(self.entries@, id);
                    }
                    assert(entries_map(self.entries@).remove(id) =~= entries_map(self.entries@));
                }
                false
            },
        }
    }
}

impl RecordDb for MemDb {
    closed spec fn inv(&self) -> bool {
        unique_ids(self.entries@)
    }

    closed spec fn view_db(&self) -> Map<MsgId, (Seq<u8>, u32)> {
        entries_map(self.entries@)
    }

    fn put(&mut self, id: MsgId, payload: Vec<u8>, byte_size: u32) -> (r: Result<(), ApiErr>) {
        let _ = self.del_inner(id);
        let ghost mid = self.entries@;
        self.entries.push(MemEntry { id, payload, byte_size });
        proof {
            assert(self.entries@.drop_last() =~= mid);
            assert(self.entries@.last().id == id);
            assert forall|a: int, b: int|
                0 <= a < b < self.entries@.len() implies (#[trigger] self.entries@[a]).id != (
            #[trigger] self.entries@[b]).id by {
                if b < self.entries@.len() - 1 {
                    assert(mid[a].id != mid[b].id);
                } else {
                    assert(self.entries@[a] == mid[a]);
                    lemma_entries_map_index(mid, a);
                }
            }
            assert(entries_map(self.entries@) =~= entries_map(old(self).entries@).insert(
                id,
                (payload@, byte_size),
            ));
        }
        Ok(())
    }

    fn get(&mut self, id: MsgId) -> (r: Result<Option<Record>, ApiErr>) {
        match self.find_entry(id) {
            Some(i) => {
                proof {
                    lemma_entries_map_index(self.entries@, i as int);
                }
                let e = &self.entries[i];
                let mut payload: Vec<u8> = Vec::new();
                payload.extend_from_slice(e.payload.as_slice());
                proof {
                    assert(payload@ =~= e.payload@);
                }
                Ok(Some(Record { payload, byte_size: e.byte_size }))
            },
            None => {
                proof {
                    if self.view_db().contains_key(id) {
                        lemma_entries_map_key(self.entries@, id);
                    }
                }
                Ok(None)
            },
        }
    }

    fn del(&mut self, id: MsgId) -> (r: Result<(), ApiErr>) {
        let _ = self.del_inner(id);
        Ok(())
    }

    fn fetch(&mut self) -> (r: Result<Vec<(MsgId, u32)>, ApiErr>) {
        let mut list: Vec<(MsgId, u32)> = Vec::new();
        let mut i: usize = 0;
        while i < self.entries.len()
            invariant
                self == old(self),
                0 <= i <= self.entries@.len(),
                unique_ids(self.entries@),
                list@.len() == i,
                forall|k: int|
                    0 <= k < i ==> (#[trigger] list@[k]) == (
                    self.entries@[k].id,
                    self.entries@[k].byte_size,
                ),
            decreases self.entries@.len() - i,
        {
            let e = &self.entries[i];
            list.push((e.id, e.byte_size));
            i = i + 1;
        }
        proof {
            assert(self.entries@ == old(self).entries@);
            assert forall|k: int|
                0 <= k < list@.len() implies old(self).view_db().contains_key(
                (#[trigger] list@[k]).0,
            ) && old(self).view_db()[list@[k].0].1 == list@[k].1 by {
                lemma_entries_map_index(old(self).entries@, k);
                assert(list@[k] == (old(self).entries@[k].id, old(self).entries@[k].byte_size));
            }
            assert forall|id: MsgId| old(self).view_db().contains_key(id) implies exists|k: int|
                0 <= k < list@.len() && (#[trigger] list@[k]).0 == id by {
                lemma_entries_map_key(old(self).entries@, id);
                let j = choose|j: int|
                    0 <= j < old(self).entries@.len() && (#[trigger] old(self).entries@[j]).id
                        == id;
                assert(list@[j] == (old(self).entries@[j].id, old(self).entries@[j].byte_size));
                assert(list@[j].0 == id);
            }
            assert(lists_records(old(self).view_db(), list@));
        }
        Ok(list)
    }
}

} // verus!
