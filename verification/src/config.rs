//! The server's configuration values. Reading and writing the configuration
//! file is the caller's concern; the merge and update rules live here.

use vstd::prelude::*;
use vstd::string::StringExecFns;

verus! {

/// The configured byte budget of one priority group.
#[derive(Debug, Clone, Copy, PartialEq, Eq, Structural)]
pub struct GroupConfig {
    pub priority: u32,
    pub max_byte_size: Option<u32>,
}

/// The server configuration.
pub struct StoreConfig {
    pub host: Option<String>,
    pub port: Option<u32>,
    pub database: Option<String>,
    pub leveldb_path: Option<String>,
    pub file_storage: Option<bool>,
    pub file_storage_path: Option<String>,
    pub max_byte_size: Option<u32>,
    pub groups: Option<Vec<GroupConfig>>,
    pub no_update: Option<bool>,
    pub update: Option<bool>,
}

/// Index of the first group entry for `p`, or `-1`.
pub open spec fn group_idx(s: Seq<GroupConfig>, p: u32) -> int
    decreases s.len(),
{
    if s.len() == 0 {
        -1
    } else if s[0].priority == p {
        0
    } else if group_idx(s.drop_first(), p) == -1 {
        -1
    } else {
        group_idx(s.drop_first(), p) + 1
    }
}

/// What `group_idx` means.
pub proof fn lemma_group_idx(s: Seq<GroupConfig>, p: u32)
    ensures
        group_idx(s, p) == -1 ==> forall|i: int|
            0 <= i < s.len() ==> (#[trigger] s[i]).priority != p,
        group_idx(s, p) != -1 ==> 0 <= group_idx(s, p) < s.len() && s[group_idx(s, p)].priority
            == p && (forall|i: int| 0 <= i < group_idx(s, p) ==> (#[trigger] s[i]).priority != p),
    decreases s.len(),
{
    if s.len() > 0 && s[0].priority != p {
        lemma_group_idx(s.drop_first(), p);
        assert forall|i: int|
            0 <= i < s.len() && group_idx(s, p) == -1 implies (#[trigger] s[i]).priority != p by {
            if i > 0 {
                assert(s.drop_first()[i - 1] == s[i]);
            }
        }
        if group_idx(s, p) != -1 {
            assert forall|i: int| 0 <= i < group_idx(s, p) implies (#[trigger] s[i]).priority
                != p by {
                if i > 0 {
                    assert(s.drop_first()[i - 1] == s[i]);
                }
            }
        }
    }
}

/// The group list with the budget for `p` set: the first entry for `p` is
/// replaced, or a new entry appended.
pub open spec fn groups_with(s: Seq<GroupConfig>, p: u32, max: Option<u32>) -> Seq<GroupConfig> {
    let i = group_idx(s, p);
    if i == -1 {
        s.push(GroupConfig { priority: p, max_byte_size: max })
    } else {
        s.update(i, GroupConfig { priority: p, max_byte_size: max })
    }
}

/// The group list without any entry for `p`.
pub open spec fn groups_without(s: Seq<GroupConfig>, p: u32) -> Seq<GroupConfig>
    decreases s.len(),
{
    if s.len() == 0 {
        Seq::empty()
    } else if s.last().priority == p {
        groups_without(s.drop_last(), p)
    } else {
        groups_without(s.drop_last(), p).push(s.last())
    }
}

impl StoreConfig {
    /// The default configuration: a local in-memory server on port 8080.
    pub fn new() -> (r: StoreConfig)
        ensures
            r.host matches Some(h) && h@ == "127.0.0.1"@,
            r.port == Some(8080u32),
            r.database matches Some(d) && d@ == "mem"@,
            r.leveldb_path is None,
            r.file_storage == Some(false),
            r.file_storage_path is None,
            r.max_byte_size is None,
            r.groups is None,
            r.no_update is None,
            r.update == Some(true),
    {
        StoreConfig {
            host: Some(String::from_str("127.0.0.1")),
            port: Some(8080),
            database: Some(String::from_str("mem")),
            leveldb_path: None,
            file_storage: Some(false),
            file_storage_path: None,
            max_byte_size: None,
            groups: None,
            no_update: None,
            update: Some(true),
        }
    }

    /// Adopts a saved configuration's values, keeping only this
    /// configuration's `update` choice.
    pub fn inherit(&mut self, configuration: StoreConfig)
        ensures
            final(self).host == configuration.host,
            final(self).port == configuration.port,
            final(self).database == configuration.database,
            final(self).leveldb_path == configuration.leveldb_path,
            final(self).file_storage == configuration.file_storage,
            final(self).file_storage_path == configuration.file_storage_path,
            final(self).max_byte_size == configuration.max_byte_size,
            final(self).groups == configuration.groups,
            final(self).no_update == configuration.no_update,
            final(self).update == old(self).update,
    {
        self.host = configuration.host;
        self.port = configuration.port;
        self.database = configuration.database;
        self.leveldb_path = configuration.leveldb_path;
        self.file_storage = configuration.file_storage;
        self.file_storage_path = configuration.file_storage_path;
        self.max_byte_size = configuration.max_byte_size;
        self.groups = configuration.groups;
        self.no_update = configuration.no_update;
    }

    /// Sets the budget for `p` in the group list, replacing the first entry
    /// for `p` or appending one; a missing list becomes a one-entry list.
    pub fn set_group(&mut self, p: u32, max: Option<u32>)
        ensures
            final(self).host == old(self).host,
            final(self).max_byte_size == old(self).max_byte_size,
            final(self).no_update == old(self).no_update,
            match old(self).groups {
                Some(g) => final(self).groups matches Some(g2) && g2@ == groups_with(g@, p, max),
                None => final(self).groups matches Some(g2) && g2@ == seq![
                    GroupConfig { priority: p, max_byte_size: max },
                ],
            },
    {
        let entry = GroupConfig { priority: p, max_byte_size: max };
        match self.groups.take() {
            Some(mut groups) => {
                let ghost g0 = groups@;
                let mut i: usize = 0;
                let n = groups.len();
                while i < n
                    invariant
                        0 <= i <= g0.len(),
                        n == g0.len(),
                        groups@ == g0,
                        entry == (GroupConfig { priority: p, max_byte_size: max }),
                        *self == (StoreConfig { groups: None::<Vec<GroupConfig>>, ..*old(self) }),
                        old(self).groups matches Some(g) && g@ == g0,
                        forall|k: int| 0 <= k < i ==> (#[trigger] g0[k]).priority != p,
                    decreases n - i,
                {
                    if groups[i].priority == p {
                        proof {
                            crate::config::lemma_group_idx_at(g0, p, i as int);
                        }
                        let _ = groups.remove(i);
                        groups.insert(i, entry);
                        proof {
                            assert forall|k: int|
                                0 <= k < groups@.len() implies groups@[k] == g0.update(
                                i as int,
                                entry,
                            )[k] by {
                                if k < i {
                                    assert(groups@[k] == g0.remove(i as int).insert(
                                        i as int,
                                        entry,
                                    )[k]);
                                }
                            }
                            assert(groups@ =~= g0.update(i as int, entry));
                            assert(groups@ =~= groups_with(g0, p, max));
                        }
                        self.groups = Some(groups);
                        return ;
                    }
                    i = i + 1;
                }
                proof {
                    lemma_group_idx(g0, p);
                    if group_idx(g0, p) != -1 {
                        assert(g0[group_idx(g0, p)].priority == p);
                    }
                }
                groups.push(entry);
                proof {
                    assert(groups@ =~= groups_with(g0, p, max));
                }
                self.groups = Some(groups);
            },
            None => {
                let mut groups: Vec<GroupConfig> = Vec::new();
                groups.push(entry);
                proof {
                    assert(groups@ =~= seq![entry]);
                }
                self.groups = Some(groups);
            },
        }
    }

    /// Drops every group entry for `p` from the group list, if one exists.
    pub fn remove_group(&mut self, p: u32)
        ensures
            final(self).host == old(self).host,
            final(self).max_byte_size == old(self).max_byte_size,
            final(self).no_update == old(self).no_update,
            match old(self).groups {
                Some(g) => final(self).groups matches Some(g2) && g2@ == groups_without(g@, p),
                None => final(self).groups is None,
            },
    {
        match self.groups.take() {
            Some(groups) => {
                let ghost g0 = groups@;
                let mut kept: Vec<GroupConfig> = Vec::new();
                let mut i: usize = 0;
                let n = groups.len();
                proof {
                    assert(g0.take(0) =~= Seq::<GroupConfig>::empty());
                    assert(kept@ =~= groups_without(g0.take(0), p));
                }
                while i < n
                    invariant
                        0 <= i <= g0.len(),
                        n == g0.len(),
                        groups@ == g0,
                        kept@ == groups_without(g0.take(i as int), p),
                    decreases n - i,
                {
                    let g = groups[i];
                    proof {
                        let t1 = g0.take(i as int + 1);
                        let t0 = g0.take(i as int);
                        assert(t1.drop_last() =~= t0);
                        assert(t1.last() == g0[i as int]);
                    }
                    if g.priority != p {
                        kept.push(g);
                    }
                    proof {
                        let t1 = g0.take(i as int + 1);
                        let t0 = g0.take(i as int);
                        assert(t1.drop_last() =~= t0);
                        assert(kept@ =~= groups_without(t1, p));
                    }
                    i = i + 1;
                }
                proof {
                    assert(g0.take(n as int) =~= g0);
                }
                self.groups = Some(kept);
            },
            None => {},
        }
    }
}

/// The position that first holds `p` is the one `group_idx` returns.
pub proof fn lemma_group_idx_at(s: Seq<GroupConfig>, p: u32, i: int)
    requires
        0 <= i < s.len(),
        s[i].priority == p,
        forall|k: int| 0 <= k < i ==> (#[trigger] s[k]).priority != p,
    ensures
        group_idx(s, p) == i,
{
    lemma_group_idx(s, p);
    if group_idx(s, p) == -1 {
        assert(s[i].priority != p);
    } else {
        if group_idx(s, p) < i {
            assert(s[group_idx(s, p)].priority != p);
        }
        if group_idx(s, p) > i {
            assert(s[i].priority != p);
        }
    }
}

/// Whether the configuration asks for the configuration file to be written
/// back after a change: declined only by an explicit `no_update`.
pub fn update_config(config: &StoreConfig) -> (r: bool)
    ensures
        r == (config.no_update != Some(true)),
{
    match config.no_update {
        Some(true) => false,
        _ => true,
    }
}

} // verus!
