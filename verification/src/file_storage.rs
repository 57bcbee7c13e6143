//! The file-blob store's in-memory index.
//!
//! The store owns an on-disk directory holding one file per blob message,
//! named by the message id's canonical text, and this index of which ids
//! have such a file. The index is the verified side; the caller performs the
//! matching file operations the coordination layer instructs, and keeps the
//! invariant that an id is indexed exactly when its file exists on disk: the
//! index is only told about a write after the write completed in full, so an
//! abandoned upload never leaves a partial file indexed.

use crate::ids::MsgId;
use vstd::prelude::*;

verus! {

/// No id occurs twice in the index sequence.
pub open spec fn unique_seq(s: Seq<MsgId>) -> bool {
    forall|i: int, j: int| 0 <= i < j < s.len() ==> s[i] != s[j]
}

/// The file-blob index: the directory path it mirrors and the ids that have
/// a blob file. An unconfigured server carries an empty index whose
/// operations all decline.
pub struct FileStorage {
    pub configured: bool,
    pub path: Vec<u8>,
    pub index: Vec<MsgId>,
}

impl FileStorage {
    /// The ids that have a blob file.
    pub open spec fn ids(self) -> Set<MsgId> {
        self.index@.to_set()
    }

    /// Well-formed: no duplicate ids, and nothing indexed when the store is
    /// not configured.
    pub open spec fn wf(self) -> bool {
        &&& unique_seq(self.index@)
        &&& !self.configured ==> self.index@.len() == 0
    }

    /// A file-blob store rooted at `path`; `configured` is false on servers
    /// that run without one.
    pub fn new(configured: bool, path: Vec<u8>) -> (r: FileStorage)
        ensures
            r.wf(),
            r.configured == configured,
            r.path == path,
            r.ids() == Set::<MsgId>::empty(),
    {
        let index: Vec<MsgId> = Vec::new();
        proof {
            assert(index@.to_set() =~= Set::<MsgId>::empty());
        }
        FileStorage { configured, path, index }
    }

    /// Index of `id` in the sequence, when present.
    fn position(&self, id: MsgId) -> (r: Option<usize>)
        ensures
            match r {
                Some(i) => 0 <= i < self.index@.len() && self.index@[i as int] == id,
                None => !self.ids().contains(id),
            },
    {
        let mut i: usize = 0;
        while i < self.index.len()
            invariant
                0 <= i <= self.index@.len(),
                forall|k: int| 0 <= k < i ==> self.index@[k] != id,
            decreases self.index@.len() - i,
        {
            let e = &self.index[i];
            if e.priority == id.priority && e.timestamp == id.timestamp && e.sequence
                == id.sequence {
                assert(self.index@[i as int] == id);
                return Some(i);
            }
            i = i + 1;
        }
        proof {
            if self.ids().contains(id) {
                let j = choose|j: int| 0 <= j < self.index@.len() && self.index@[j] == id;
                assert(self.index@[j] != id);
            }
        }
        None
    }

    /// Whether `id` has a blob file.
    pub fn contains(&self, id: MsgId) -> (r: bool)
        ensures
            r == self.ids().contains(id),
    {
        match self.position(id) {
            Some(i) => {
                proof {
                    assert(self.index@.contains(id));
                }
                true
            },
            None => false,
        }
    }

    /// Records that the blob file for `id` has been fully written. Called
    /// only after the write completed, so a half-written file is never
    /// indexed.
    pub fn insert(&mut self, id: MsgId)
        requires
            old(self).wf(),
            old(self).configured,
        ensures
            final(self).wf(),
            final(self).ids() == old(self).ids().insert(id),
            final(self).configured == old(self).configured,
            final(self).path == old(self).path,
    {
        match self.position(id) {
            Some(_) => {
                proof {
                    assert(self.index@.contains(id));
                    assert(self.ids() =~= old(self).ids().insert(id));
                }
            },
            None => {
                let ghost before = self.index@;
                self.index.push(id);
                proof {
                    assert forall|a: int, b: int|
                        0 <= a < b < self.index@.len() implies self.index@[a] != self.index@[b] by {
                        if b == self.index@.len() - 1 {
                            assert(self.index@[a] == before[a]);
                        } else {
                            assert(before[a] != before[b]);
                        }
                    }
                    assert forall|x: MsgId| self.ids().contains(x) implies old(self).ids().insert(
                        id,
                    ).contains(x) by {
                        let k = choose|k: int| 0 <= k < self.index@.len() && self.index@[k] == x;
                        if k < self.index@.len() - 1 {
                            assert(before[k] == x);
                        }
                    }
                    assert forall|x: MsgId|
                        old(self).ids().insert(id).contains(x) implies self.ids().contains(x) by {
                        if x == id {
                            assert(self.index@[self.index@.len() - 1] == x);
                        } else {
                            let k = choose|k: int| 0 <= k < before.len() && before[k] == x;
                            assert(self.index@[k] == x);
                        }
                    }
                    assert(self.ids() =~= old(self).ids().insert(id));
                }
            },
        }
    }

    /// Removes `id` from the index; reports whether it was indexed, which is
    /// exactly when the caller must also remove the blob file from disk.
    pub fn remove(&mut self, id: MsgId) -> (r: bool)
        requires
            old(self).wf(),
        ensures
            final(self).wf(),
            r == old(self).ids().contains(id),
            final(self).ids() == old(self).ids().remove(id),
            final(self).configured == old(self).configured,
            final(self).path == old(self).path,
    {
        match self.position(id) {
            Some(i) => {
                let ghost before = self.index@;
                let _ = self.index.remove(i);
                proof {
                    assert(before.contains(id));
                    assert forall|a: int, b: int|
                        0 <= a < b < self.index@.len() implies self.index@[a] != self.index@[b] by {
                        let a0 = if a < i { a } else { a + 1 };
                        let b0 = if b < i { b } else { b + 1 };
                        assert(self.index@[a] == before[a0]);
                        assert(self.index@[b] == before[b0]);
                    }
                    assert forall|x: MsgId| self.ids().contains(x) implies before.to_set().remove(
                        id,
                    ).contains(x) by {
                        let k = choose|k: int| 0 <= k < self.index@.len() && self.index@[k] == x;
                        let k0 = if k < i { k } else { k + 1 };
                        assert(before[k0] == x);
                        assert(x != id) by {
                            if k < i {
                                assert(before[k] == x && before[i as int] == id);
                            } else {
                                assert(before[k + 1] == x && before[i as int] == id);
                            }
                        }
                    }
                    assert forall|x: MsgId|
                        before.to_set().remove(id).contains(x) implies self.ids().contains(x) by {
                        let k = choose|k: int| 0 <= k < before.len() && before[k] == x;
                        assert(k != i);
                        let k1 = if k < i { k } else { k - 1 };
                        assert(self.index@[k1] == x);
                    }
                    assert(self.ids() =~= old(self).ids().remove(id));
                }
                true
            },
            None => {
                proof {
                    assert(self.ids() =~= old(self).ids().remove(id));
                }
                false
            },
        }
    }
}

/// Builds the index the startup reconciliation step found on disk: the ids
/// whose files exist in the storage directory.
pub fn discover_files(file_storage: &mut FileStorage, ids: Vec<MsgId>)
    requires
        old(file_storage).wf(),
        old(file_storage).configured,
    ensures
        final(file_storage).wf(),
        final(file_storage).configured == old(file_storage).configured,
        final(file_storage).path == old(file_storage).path,
        final(file_storage).ids() == old(file_storage).ids().union(ids@.to_set()),
    decreases ids@.len(),
{
    let ghost all = ids@;
    let mut i: usize = 0;
    let n = ids.len();
    while i < n
        invariant
            0 <= i <= all.len(),
            n == all.len(),
            ids@ == all,
            file_storage.wf(),
            file_storage.configured,
            file_storage.path == old(file_storage).path,
            file_storage.ids() == old(file_storage).ids().union(all.take(i as int).to_set()),
        decreases all.len() - i,
    {
        let id = ids[i];
        file_storage.insert(id);
        proof {
            let t1 = all.take(i as int + 1);
            let t0 = all.take(i as int);
            assert forall|x: MsgId| t1.to_set().contains(x) implies t0.to_set().insert(
                all[i as int],
            ).contains(x) by {
                let k = choose|k: int| 0 <= k < t1.len() && t1[k] == x;
                if k < i {
                    assert(t0[k] == x);
                }
            }
            assert forall|x: MsgId|
                t0.to_set().insert(all[i as int]).contains(x) implies t1.to_set().contains(x) by {
                if x == all[i as int] {
                    assert(t1[i as int] == x);
                } else {
                    let k = choose|k: int| 0 <= k < t0.len() && t0[k] == x;
                    assert(t1[k] == x);
                }
            }
            assert(all.take(i as int + 1).to_set() =~= all.take(i as int).to_set().insert(
                all[i as int],
            ));
            assert(file_storage.ids() =~= old(file_storage).ids().union(
                all.take(i as int + 1).to_set(),
            ));
        }
        i = i + 1;
    }
    proof {
        assert(all.take(all.len() as int) =~= all);
    }
}

} // verus!
