//! Group administration, statistics, configuration and the export pipeline.

use msg_store_server::config::{GroupConfig, StoreConfig};
use msg_store_server::errors::ApiErr;
use msg_store_server::file_storage::{discover_files, FileStorage};
use msg_store_server::ids::MsgId;
use msg_store_server::index::{store_msg_count, store_new};
use msg_store_server::msg::add::AddOutcome;
use msg_store_server::msg::{add, get};
use msg_store_server::record_db::{MemDb, RecordDb};
use msg_store_server::stats::Stats;
use msg_store_server::wire::VecChunks;
use msg_store_server::export::{export_commit, export_line, export_next,
    get_export_destination_directory, export_db_next, export_db_commit};

fn insert_inline(
    store: &mut msg_store::store::Store,
    db: &mut MemDb,
    fs: &mut FileStorage,
    stats: &mut Stats,
    priority: u32,
    body: &[u8],
) -> MsgId {
    let mut header = format!("priority={}?", priority).into_bytes();
    header.extend_from_slice(body);
    let mut payload = VecChunks::new(vec![Some(header)]);
    match add::handle(store, db, fs, stats, &mut payload).unwrap() {
        AddOutcome::Inline { uuid, .. } => uuid,
        _ => panic!("inline expected"),
    }
}

#[test]
fn group_defaults_set_prunes_and_updates_config() {
    let mut store = store_new();
    let mut db = MemDb::new();
    let mut fs = FileStorage::new(false, Vec::new());
    let mut stats = Stats::new();
    let mut config = StoreConfig::new();
    let a = insert_inline(&mut store, &mut db, &mut fs, &mut stats, 2, b"aaa");
    let b = insert_inline(&mut store, &mut db, &mut fs, &mut stats, 2, b"bbb");
    let out = msg_store_server::group_defaults::set::handle(
        &mut store,
        &mut db,
        &mut fs,
        &mut stats,
        &mut config,
        2,
        Some(3),
    )
    .unwrap();
    // 6 bytes held against a budget of 3: one of the two messages is pruned.
    assert_eq!(out.evicted.len(), 1);
    let gone = out.evicted[0];
    assert!(gone == a || gone == b);
    let kept = if gone == a { b } else { a };
    assert_eq!(stats.pruned, 1);
    assert_eq!(stats.deleted, 0);
    assert!(get::handle(&store, &mut db, &fs, Some(gone), None, false)
        .unwrap()
        .is_none());
    assert!(get::handle(&store, &mut db, &fs, Some(kept), None, false)
        .unwrap()
        .is_some());
    let groups = config.groups.as_ref().unwrap();
    assert_eq!(groups.len(), 1);
    assert_eq!(groups[0], GroupConfig { priority: 2, max_byte_size: Some(3) });

    let listed = msg_store_server::group_defaults::get::handle(&store, Some(2));
    assert_eq!(listed.len(), 1);
    assert_eq!(listed[0].priority, 2);
    assert_eq!(listed[0].max_byte_size, Some(3));

    msg_store_server::group_defaults::rm::handle(&mut store, &mut config, 2);
    assert!(msg_store_server::group_defaults::get::handle(&store, Some(2)).is_empty());
    assert_eq!(config.groups.as_ref().unwrap().len(), 0);
}

#[test]
fn group_report_lists_held_messages() {
    let mut store = store_new();
    let mut db = MemDb::new();
    let mut fs = FileStorage::new(false, Vec::new());
    let mut stats = Stats::new();
    let a = insert_inline(&mut store, &mut db, &mut fs, &mut stats, 3, b"one");
    let b = insert_inline(&mut store, &mut db, &mut fs, &mut stats, 3, b"three");
    insert_inline(&mut store, &mut db, &mut fs, &mut stats, 9, b"other");
    let groups = msg_store_server::group::get::handle(&store, Some(3), true);
    assert_eq!(groups.len(), 1);
    let g = &groups[0];
    assert_eq!(g.priority, 3);
    assert_eq!(g.byte_size, 8);
    assert_eq!(g.msg_count, 2);
    let mut uuids: Vec<MsgId> = g.messages.iter().map(|m| m.uuid).collect();
    uuids.sort_by_key(|m| m.timestamp);
    let mut expected = vec![a, b];
    expected.sort_by_key(|m| m.timestamp);
    assert_eq!(uuids, expected);
    let all = msg_store_server::group::get::handle(&store, None, false);
    assert_eq!(all.len(), 2);
}

#[test]
fn group_delete_empties_the_group() {
    let mut store = store_new();
    let mut db = MemDb::new();
    let mut fs = FileStorage::new(false, Vec::new());
    let mut stats = Stats::new();
    let a = insert_inline(&mut store, &mut db, &mut fs, &mut stats, 3, b"one");
    let keep = insert_inline(&mut store, &mut db, &mut fs, &mut stats, 9, b"other");
    let out =
        msg_store_server::group::rm::handle(&mut store, &mut db, &mut fs, &mut stats, 3).unwrap();
    assert_eq!(out.evicted, vec![a]);
    assert_eq!(stats.deleted, 1);
    assert!(get::handle(&store, &mut db, &fs, Some(a), None, false)
        .unwrap()
        .is_none());
    assert!(get::handle(&store, &mut db, &fs, Some(keep), None, false)
        .unwrap()
        .is_some());
}

#[test]
fn store_report_shows_budget_and_counts() {
    let mut store = store_new();
    let mut db = MemDb::new();
    let mut fs = FileStorage::new(false, Vec::new());
    let mut stats = Stats::new();
    let mut config = StoreConfig::new();
    msg_store_server::store::set::handle(
        &mut store,
        &mut db,
        &mut fs,
        &mut stats,
        &mut config,
        Some(500),
    )
    .unwrap();
    insert_inline(&mut store, &mut db, &mut fs, &mut stats, 1, b"abcde");
    let data = msg_store_server::store::get::handle(&store);
    assert_eq!(data.max_byte_size, Some(500));
    assert_eq!(data.byte_size, 5);
    assert_eq!(data.msg_count, 1);
    assert_eq!(data.group_count, 1);
    assert_eq!(config.max_byte_size, Some(500));
}

#[test]
fn store_budget_change_prunes_and_counts_pruned() {
    let mut store = store_new();
    let mut db = MemDb::new();
    let mut fs = FileStorage::new(false, Vec::new());
    let mut stats = Stats::new();
    let mut config = StoreConfig::new();
    let a = insert_inline(&mut store, &mut db, &mut fs, &mut stats, 1, b"aaaa");
    let b = insert_inline(&mut store, &mut db, &mut fs, &mut stats, 2, b"bbbb");
    let out = msg_store_server::store::set::handle(
        &mut store,
        &mut db,
        &mut fs,
        &mut stats,
        &mut config,
        Some(4),
    )
    .unwrap();
    assert_eq!(out.evicted, vec![a]);
    assert_eq!(stats.pruned, 1);
    assert!(get::handle(&store, &mut db, &fs, Some(a), None, false)
        .unwrap()
        .is_none());
    assert!(get::handle(&store, &mut db, &fs, Some(b), None, false)
        .unwrap()
        .is_some());
}

#[test]
fn stats_handlers_add_replace_and_reset() {
    let mut stats = Stats::new();
    stats.add(3, 2, 1);
    assert_eq!(msg_store_server::stats::get::handle(&stats), stats);
    let before = msg_store_server::stats::set::handle(
        &mut stats,
        true,
        Some(1),
        None,
        Some(2),
    );
    assert_eq!(before, Stats { inserted: 3, deleted: 2, pruned: 1 });
    assert_eq!(stats, Stats { inserted: 4, deleted: 2, pruned: 3 });
    let before = msg_store_server::stats::set::handle(&mut stats, false, Some(0), Some(9), None);
    assert_eq!(before, Stats { inserted: 4, deleted: 2, pruned: 3 });
    assert_eq!(stats, Stats { inserted: 0, deleted: 9, pruned: 3 });
    let old = msg_store_server::stats::rm::handle(&mut stats);
    assert_eq!(old, Stats { inserted: 0, deleted: 9, pruned: 3 });
    assert_eq!(stats, Stats { inserted: 0, deleted: 0, pruned: 0 });
    // Counters saturate rather than wrap.
    stats.replace(u32::MAX, 0, 0);
    stats.add(5, 0, 0);
    assert_eq!(stats.inserted, u32::MAX);
}

#[test]
fn config_inherit_keeps_update_choice() {
    let mut config = StoreConfig::new();
    let mut saved = StoreConfig::new();
    saved.max_byte_size = Some(123);
    saved.no_update = Some(true);
    saved.update = None;
    config.inherit(saved);
    assert_eq!(config.max_byte_size, Some(123));
    assert_eq!(config.no_update, Some(true));
    assert_eq!(config.update, Some(true));
    assert!(!msg_store_server::config::update_config(&config));
    config.no_update = None;
    assert!(msg_store_server::config::update_config(&config));
}

#[test]
fn export_destination_never_reuses_an_existing_name() {
    let base = b"backup".to_vec();
    let free = get_export_destination_directory(&base, &vec![]);
    assert_eq!(free, b"backup".to_vec());
    let taken = vec![b"backup".to_vec()];
    assert_eq!(get_export_destination_directory(&base, &taken), b"backup-1".to_vec());
    let taken = vec![b"backup".to_vec(), b"backup-1".to_vec(), b"backup-2".to_vec()];
    assert_eq!(get_export_destination_directory(&base, &taken), b"backup-3".to_vec());
}

#[test]
fn export_drains_the_store_and_counts_deletions() {
    let mut store = store_new();
    let mut db = MemDb::new();
    let mut fs = FileStorage::new(false, Vec::new());
    let mut stats = Stats::new();
    let a = insert_inline(&mut store, &mut db, &mut fs, &mut stats, 2, b"first");
    let b = insert_inline(&mut store, &mut db, &mut fs, &mut stats, 1, b"second");
    let mut lines: Vec<Vec<u8>> = Vec::new();
    let mut migrated: Vec<MsgId> = Vec::new();
    loop {
        match export_next(&store, &mut db).unwrap() {
            Some((uuid, line)) => {
                lines.push(line);
                export_commit(&mut store, &mut db, &mut stats, uuid).unwrap();
                migrated.push(uuid);
            }
            None => break,
        }
    }
    assert_eq!(migrated, vec![a, b]);
    assert_eq!(store_msg_count(&store), 0);
    assert_eq!(stats.deleted, 2);
    let expected = format!(
        "{{\"uuid\":\"{}\",\"msg\":\"first\"}}\n",
        String::from_utf8(a.to_text()).unwrap()
    );
    assert_eq!(lines[0], expected.into_bytes());
}

#[test]
fn export_line_escapes_the_message_text() {
    let id = MsgId { priority: 1, timestamp: 2, sequence: 3 };
    let line = export_line(id, b"say \"hi\"\\\n");
    assert_eq!(
        line,
        b"{\"uuid\":\"1-2-3\",\"msg\":\"say \\\"hi\\\"\\\\\\n\"}\n".to_vec()
    );
    let control = export_line(id, &[0x01]);
    assert_eq!(control, b"{\"uuid\":\"1-2-3\",\"msg\":\"\\u0001\"}\n".to_vec());
}

#[test]
fn export_to_backup_database_migrates_records_and_blobs() {
    let mut store = store_new();
    let mut db = MemDb::new();
    let mut fs = FileStorage::new(true, b"live".to_vec());
    let mut stats = Stats::new();
    let a = insert_inline(&mut store, &mut db, &mut fs, &mut stats, 2, b"payload");
    // Simulate the blob file that startup reconciliation would have found.
    discover_files(&mut fs, vec![a]);
    let mut disk: Vec<MsgId> = vec![a];
    let mut backup = MemDb::new();
    loop {
        match export_db_next(&store, &mut db, &fs).unwrap() {
            Some((uuid, payload, byte_size, has_blob)) => {
                if has_blob {
                    // The caller copies the blob file under the backup root.
                    disk.retain(|d| *d != uuid);
                }
                export_db_commit(
                    &mut store,
                    &mut db,
                    &mut backup,
                    &mut fs,
                    &mut stats,
                    uuid,
                    payload,
                    byte_size,
                )
                .unwrap();
            }
            None => break,
        }
    }
    assert_eq!(store_msg_count(&store), 0);
    assert_eq!(stats.deleted, 1);
    assert!(!fs.contains(a));
    assert!(disk.is_empty());
    let moved = backup.fetch().unwrap();
    assert_eq!(moved.len(), 1);
    assert_eq!(moved[0], (a, 7));
}

#[test]
fn blob_index_mirrors_the_instructed_file_operations() {
    // The caller keeps a file set; performing exactly the instructed
    // removals keeps it equal to the index.
    let mut store = store_new();
    let mut db = MemDb::new();
    let mut fs = FileStorage::new(true, b"live".to_vec());
    let mut stats = Stats::new();
    let mut config = StoreConfig::new();
    let a = insert_inline(&mut store, &mut db, &mut fs, &mut stats, 1, b"aa");
    let b = insert_inline(&mut store, &mut db, &mut fs, &mut stats, 1, b"bb");
    discover_files(&mut fs, vec![a, b]);
    let mut disk: Vec<MsgId> = vec![a, b];
    let out = msg_store_server::group_defaults::set::handle(
        &mut store,
        &mut db,
        &mut fs,
        &mut stats,
        &mut config,
        1,
        Some(2),
    )
    .unwrap();
    assert_eq!(out.removed_files.len(), 1);
    let gone = out.removed_files[0];
    assert!(gone == a || gone == b);
    for removed in &out.removed_files {
        disk.retain(|d| d != removed);
    }
    for id in &disk {
        assert!(fs.contains(*id));
    }
    assert!(!fs.contains(gone));
    assert_eq!(disk.len(), 1);
}

#[test]
fn reply_text_helpers_compose() {
    let data = msg_store_server::proto::prepend_data_str("priority must be a number".to_string());
    assert_eq!(data, "/data/priority must be a number");
    let with_null = msg_store_server::proto::append_null("priority".to_string());
    assert_eq!(with_null, "priority | null");
}
