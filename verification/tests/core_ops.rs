//! Message ingestion, retrieval and deletion, driven end to end against the
//! real priority index.

use msg_store_server::errors::ApiErr;
use msg_store_server::file_storage::FileStorage;
use msg_store_server::ids::{id_from_text, MsgId};
use msg_store_server::index::{store_byte_size, store_msg_count, store_new};
use msg_store_server::msg::add::{commit_blob, AddOutcome};
use msg_store_server::msg::get::{ReturnBody, StreamStep, RETRIEVAL_CHUNK};
use msg_store_server::msg::Either;
use msg_store_server::msg::{add, get, rm};
use msg_store_server::record_db::{MemDb, RecordDb};
use msg_store_server::stats::Stats;
use msg_store_server::wire::{decode, Chunky, VecChunks};

fn chunks_of(parts: Vec<Option<Vec<u8>>>) -> VecChunks {
    VecChunks::new(parts)
}

fn one_chunk(bytes: &[u8]) -> VecChunks {
    chunks_of(vec![Some(bytes.to_vec())])
}

fn id_text(id: &MsgId) -> String {
    String::from_utf8(id.to_text()).unwrap()
}

#[test]
fn insert_then_retrieve_inline_round_trips() {
    let mut store = store_new();
    let mut db = MemDb::new();
    let mut fs = FileStorage::new(false, Vec::new());
    let mut stats = Stats::new();
    let mut payload = one_chunk(b"priority=5?hello");
    let out = add::handle(&mut store, &mut db, &mut fs, &mut stats, &mut payload).unwrap();
    let uuid = match out {
        AddOutcome::Inline { uuid, evicted, removed_files } => {
            assert_eq!(evicted.len(), 0);
            assert_eq!(removed_files.len(), 0);
            uuid
        }
        _ => panic!("expected an inline insert"),
    };
    assert_eq!(uuid.priority, 5);
    assert_eq!(stats.inserted, 1);
    assert_eq!(stats.deleted, 0);
    let got = get::handle(&store, &mut db, &fs, Some(uuid), None, false)
        .unwrap()
        .unwrap();
    match got {
        Either::B(inline) => {
            let expected = format!("uuid={}?hello", id_text(&uuid)).into_bytes();
            assert_eq!(inline.text, expected);
            // Decoding the response at its first boundary byte gives the
            // body back.
            let boundary = inline.text.iter().position(|x| *x == b'?').unwrap();
            assert_eq!(&inline.text[boundary + 1..], b"hello");
        }
        Either::A(_) => panic!("inline message must not come back as a blob"),
    }
}

#[test]
fn retrieve_next_pending_returns_highest_priority_oldest() {
    let mut store = store_new();
    let mut db = MemDb::new();
    let mut fs = FileStorage::new(false, Vec::new());
    let mut stats = Stats::new();
    let mut low = one_chunk(b"priority=1?low");
    let low_id = match add::handle(&mut store, &mut db, &mut fs, &mut stats, &mut low).unwrap() {
        AddOutcome::Inline { uuid, .. } => uuid,
        _ => panic!("inline expected"),
    };
    let mut high1 = one_chunk(b"priority=9?first high");
    let high1_id =
        match add::handle(&mut store, &mut db, &mut fs, &mut stats, &mut high1).unwrap() {
            AddOutcome::Inline { uuid, .. } => uuid,
            _ => panic!("inline expected"),
        };
    let mut high2 = one_chunk(b"priority=9?second high");
    match add::handle(&mut store, &mut db, &mut fs, &mut stats, &mut high2).unwrap() {
        AddOutcome::Inline { .. } => {}
        _ => panic!("inline expected"),
    };
    let next = get::handle(&store, &mut db, &fs, None, None, false)
        .unwrap()
        .unwrap();
    match next {
        Either::B(inline) => assert_eq!(inline.uuid, high1_id),
        _ => panic!("inline expected"),
    }
    let last = get::handle(&store, &mut db, &fs, None, None, true)
        .unwrap()
        .unwrap();
    match last {
        Either::B(inline) => assert_eq!(inline.uuid, low_id),
        _ => panic!("inline expected"),
    }
}

#[test]
fn delete_removes_everywhere_and_counts_one() {
    let mut store = store_new();
    let mut db = MemDb::new();
    let mut fs = FileStorage::new(false, Vec::new());
    let mut stats = Stats::new();
    let mut payload = one_chunk(b"priority=3?bye");
    let uuid = match add::handle(&mut store, &mut db, &mut fs, &mut stats, &mut payload).unwrap() {
        AddOutcome::Inline { uuid, .. } => uuid,
        _ => panic!("inline expected"),
    };
    let remove_file = rm::handle(&mut store, &mut db, &mut fs, &mut stats, uuid).unwrap();
    assert!(!remove_file);
    assert_eq!(stats.deleted, 1);
    assert!(get::handle(&store, &mut db, &fs, Some(uuid), None, false)
        .unwrap()
        .is_none());
    assert_eq!(store_msg_count(&store), 0);
}

#[test]
fn deleting_a_nonexistent_id_is_a_no_op() {
    let mut store = store_new();
    let mut db = MemDb::new();
    let mut fs = FileStorage::new(false, Vec::new());
    let mut stats = Stats::new();
    let mut payload = one_chunk(b"priority=3?stay");
    match add::handle(&mut store, &mut db, &mut fs, &mut stats, &mut payload).unwrap() {
        AddOutcome::Inline { .. } => {}
        _ => panic!("inline expected"),
    };
    let stats_before = stats;
    let absent_id = MsgId { priority: 7, timestamp: 12345, sequence: 1 };
    let remove_file = rm::handle(&mut store, &mut db, &mut fs, &mut stats, absent_id).unwrap();
    assert!(!remove_file);
    assert_eq!(stats, stats_before);
    assert_eq!(store_msg_count(&store), 1);
}

#[test]
fn capacity_eviction_drops_the_low_priority_message() {
    let mut store = store_new();
    let mut db = MemDb::new();
    let mut fs = FileStorage::new(false, Vec::new());
    let mut stats = Stats::new();
    let mut config = msg_store_server::config::StoreConfig::new();
    msg_store_server::store::set::handle(
        &mut store,
        &mut db,
        &mut fs,
        &mut stats,
        &mut config,
        Some(1000),
    )
    .unwrap();
    let body_low = vec![b'x'; 600];
    let mut low = chunks_of(vec![Some(b"priority=1?".to_vec()), Some(body_low)]);
    let low_id = match add::handle(&mut store, &mut db, &mut fs, &mut stats, &mut low).unwrap() {
        AddOutcome::Inline { uuid, .. } => uuid,
        _ => panic!("inline expected"),
    };
    let body_high = vec![b'y'; 600];
    let mut high = chunks_of(vec![Some(b"priority=9?".to_vec()), Some(body_high)]);
    let (high_id, evicted) =
        match add::handle(&mut store, &mut db, &mut fs, &mut stats, &mut high).unwrap() {
            AddOutcome::Inline { uuid, evicted, .. } => (uuid, evicted),
            _ => panic!("inline expected"),
        };
    assert_eq!(evicted, vec![low_id]);
    assert_eq!(stats.deleted, 1);
    assert_eq!(stats.inserted, 2);
    assert!(get::handle(&store, &mut db, &fs, Some(low_id), None, false)
        .unwrap()
        .is_none());
    assert!(!fs.contains(low_id));
    assert!(get::handle(&store, &mut db, &fs, Some(high_id), None, false)
        .unwrap()
        .is_some());
    // Admission conservation on these concrete states: the record store's
    // accounted bytes equal the index's accounted bytes.
    let listed = db.fetch().unwrap();
    let db_total: u64 = listed.iter().map(|(_, b)| *b as u64).sum();
    assert_eq!(db_total, store_byte_size(&store) as u64);
}

#[test]
fn blob_insert_streams_all_bytes_not_the_override() {
    let mut store = store_new();
    let mut db = MemDb::new();
    let mut fs = FileStorage::new(true, b"blob-root".to_vec());
    let mut stats = Stats::new();
    let blob = vec![7u8; 2048];
    let mut payload = chunks_of(vec![
        Some(b"priority=5&saveToFile=true&byteSizeOverride=1024?".to_vec()),
        Some(blob.clone()),
    ]);
    let (pending, mut file_bytes) =
        match add::handle(&mut store, &mut db, &mut fs, &mut stats, &mut payload).unwrap() {
            AddOutcome::Blob { pending, .. } => {
                let head = pending.head.clone();
                (pending, head)
            }
            _ => panic!("blob expected"),
        };
    // The caller streams the rest of the payload into the blob file.
    loop {
        match payload.next_chunk() {
            msg_store_server::wire::NextChunk::Data(v) => file_bytes.extend_from_slice(&v),
            msg_store_server::wire::NextChunk::Done => break,
            msg_store_server::wire::NextChunk::Failed => panic!("payload failed"),
        }
    }
    assert_eq!(file_bytes, blob);
    assert_eq!(pending.byte_size, 1024);
    let uuid = commit_blob(&mut db, &mut fs, pending).unwrap();
    assert!(fs.contains(uuid));
    let got = get::handle(&store, &mut db, &fs, Some(uuid), None, false)
        .unwrap()
        .unwrap();
    let header = match got {
        Either::A(blob_resp) => blob_resp.header,
        Either::B(_) => panic!("blob message must come back as a stream"),
    };
    let expected = format!("uuid={}&byteSizeOverride=1024?", id_text(&uuid)).into_bytes();
    assert_eq!(header, expected);
    // Drive the response stream: the full 2048 stored bytes are served, not
    // the 1024-byte override.
    let mut body = ReturnBody::new(header.clone(), file_bytes.len() as u64);
    let mut sent_header = Vec::new();
    let mut streamed: u64 = 0;
    loop {
        match body.next_step() {
            StreamStep::Header(h) => sent_header = h,
            StreamStep::Read(n) => {
                assert!(n <= RETRIEVAL_CHUNK);
                streamed += n;
            }
            StreamStep::Done => break,
        }
        body.advance();
    }
    assert_eq!(sent_header, header);
    assert_eq!(streamed, 2048);
}

#[test]
fn decode_reports_each_client_error_exactly() {
    let cases: Vec<(Vec<Option<Vec<u8>>>, bool, ApiErr)> = vec![
        (vec![Some(b"a=b?x".to_vec())], true, ApiErr::MissingPriority),
        (vec![Some(b"priority=abc?x".to_vec())], true, ApiErr::InvalidPriority),
        (vec![Some(b"priority=99999999999?x".to_vec())], true, ApiErr::InvalidPriority),
        (vec![Some(b"?x".to_vec())], true, ApiErr::MissingHeaders),
        (vec![Some(b"nopair?x".to_vec())], true, ApiErr::MalformedHeaders),
        (vec![Some(b"a=b=c?x".to_vec())], true, ApiErr::MalformedHeaders),
        (
            vec![Some(b"priority=1&saveToFile=true?x".to_vec())],
            true,
            ApiErr::MissingBytesizeOverride,
        ),
        (
            vec![Some(b"priority=1&saveToFile=true&byteSizeOverride=abc?x".to_vec())],
            true,
            ApiErr::InvalidBytesizeOverride,
        ),
        (
            vec![Some(b"priority=1&saveToFile=true&byteSizeOverride=9?x".to_vec())],
            false,
            ApiErr::FileStorageNotConfigured,
        ),
        (vec![None], true, ApiErr::CouldNotGetChunkFromPayload),
        (
            vec![Some(b"priority=1?x".to_vec()), None],
            true,
            ApiErr::CouldNotGetChunkFromPayload,
        ),
        (vec![Some(vec![0xff, 0xfe])], true, ApiErr::CouldNotParseChunk),
        (
            vec![Some(b"priority=1?".to_vec()), Some(vec![0xff, 0xfe])],
            true,
            ApiErr::CouldNotParseChunk,
        ),
        (vec![Some(b"priority=1".to_vec())], true, ApiErr::MissingPriority),
    ];
    for (parts, configured, expected) in cases {
        let mut payload = chunks_of(parts);
        let got = decode(&mut payload, configured).map(|_| ()).unwrap_err();
        assert_eq!(got, expected);
    }
}

#[test]
fn decode_accepts_case_insensitive_save_to_file_flag() {
    let mut payload = one_chunk(b"priority=2&saveToFile=TRUE&byteSizeOverride=10?blobhead");
    let d = decode(&mut payload, true).unwrap();
    assert!(d.save_to_file);
    assert_eq!(d.byte_size, 10);
    assert_eq!(d.blob_head, b"blobhead".to_vec());
    assert_eq!(d.msg, b"byteSizeOverride=10".to_vec());
}

#[test]
fn admission_conflicts_are_reported_not_stored() {
    let mut store = store_new();
    let mut db = MemDb::new();
    let mut fs = FileStorage::new(false, Vec::new());
    let mut stats = Stats::new();
    let mut config = msg_store_server::config::StoreConfig::new();
    msg_store_server::store::set::handle(
        &mut store,
        &mut db,
        &mut fs,
        &mut stats,
        &mut config,
        Some(100),
    )
    .unwrap();
    let big = vec![b'x'; 200];
    let mut payload = chunks_of(vec![Some(b"priority=1?".to_vec()), Some(big)]);
    let got = match add::handle(&mut store, &mut db, &mut fs, &mut stats, &mut payload) {
        Err(e) => e,
        Ok(_) => panic!("an oversized message must be refused"),
    };
    assert_eq!(got, ApiErr::MsgExceedesStoreMax);
    assert_eq!(store_msg_count(&store), 0);
    assert_eq!(stats.inserted, 0);

    // Fill with a higher priority, then a lower one lacks priority.
    let mut first = chunks_of(vec![Some(b"priority=5?".to_vec()), Some(vec![b'a'; 80])]);
    add::handle(&mut store, &mut db, &mut fs, &mut stats, &mut first).unwrap();
    let mut second = chunks_of(vec![Some(b"priority=1?".to_vec()), Some(vec![b'b'; 80])]);
    let got = match add::handle(&mut store, &mut db, &mut fs, &mut stats, &mut second) {
        Err(e) => e,
        Ok(_) => panic!("a low-priority message must not evict a higher one"),
    };
    assert_eq!(got, ApiErr::MsgLacksPriority);
}

#[test]
fn group_budget_conflict_is_reported() {
    let mut store = store_new();
    let mut db = MemDb::new();
    let mut fs = FileStorage::new(false, Vec::new());
    let mut stats = Stats::new();
    let mut config = msg_store_server::config::StoreConfig::new();
    msg_store_server::group_defaults::set::handle(
        &mut store,
        &mut db,
        &mut fs,
        &mut stats,
        &mut config,
        4,
        Some(10),
    )
    .unwrap();
    let mut payload = chunks_of(vec![Some(b"priority=4?".to_vec()), Some(vec![b'z'; 20])]);
    let got = match add::handle(&mut store, &mut db, &mut fs, &mut stats, &mut payload) {
        Err(e) => e,
        Ok(_) => panic!("a message above the group budget must be refused"),
    };
    assert_eq!(got, ApiErr::MsgExceedesGroupMax);
}

#[test]
fn id_text_parses_back_to_the_same_id() {
    let id = MsgId { priority: 42, timestamp: 1636523479865480266, sequence: 7 };
    let text = id.to_text();
    assert_eq!(text, b"42-1636523479865480266-7".to_vec());
    assert_eq!(id_from_text(&text), Some(id));
    assert_eq!(id_from_text(b"42-x-7"), None);
    assert_eq!(id_from_text(b"42-7"), None);
    assert_eq!(id_from_text(b""), None);
}

#[test]
fn decode_handles_headers_split_across_chunks() {
    let mut payload = chunks_of(vec![
        Some(b"prior".to_vec()),
        Some(b"ity=5&a=".to_vec()),
        Some(b"b?bo".to_vec()),
        Some(b"dy".to_vec()),
    ]);
    let d = decode(&mut payload, false).unwrap();
    assert_eq!(d.priority, 5);
    assert!(!d.save_to_file);
    assert_eq!(d.byte_size, 4);
    assert_eq!(d.msg, b"body".to_vec());
}

#[test]
fn decode_keeps_the_last_value_of_a_repeated_key() {
    let mut payload = one_chunk(b"priority=1&priority=2?x");
    let d = decode(&mut payload, false).unwrap();
    assert_eq!(d.priority, 2);
    // The echo of a blob submission also carries unknown keys verbatim.
    let mut blob = one_chunk(b"k=v&priority=1&saveToFile=true&byteSizeOverride=3?abc");
    let d = decode(&mut blob, true).unwrap();
    assert_eq!(d.msg, b"k=v&byteSizeOverride=3".to_vec());
    assert_eq!(d.blob_head, b"abc".to_vec());
}

#[test]
fn eviction_within_the_admitted_group_is_detected_and_cascaded() {
    // Store budget 1000; two 600-byte messages at the same priority. The
    // second admission must evict the first even though the index does not
    // report victims taken from the admitted group itself; the handler
    // recovers them, so the record store keeps no orphan.
    let mut store = store_new();
    let mut db = MemDb::new();
    let mut fs = FileStorage::new(false, Vec::new());
    let mut stats = Stats::new();
    let mut config = msg_store_server::config::StoreConfig::new();
    msg_store_server::store::set::handle(
        &mut store,
        &mut db,
        &mut fs,
        &mut stats,
        &mut config,
        Some(1000),
    )
    .unwrap();
    let mut first = chunks_of(vec![Some(b"priority=5?".to_vec()), Some(vec![b'x'; 600])]);
    let first_id = match add::handle(&mut store, &mut db, &mut fs, &mut stats, &mut first).unwrap()
    {
        AddOutcome::Inline { uuid, .. } => uuid,
        _ => panic!("inline expected"),
    };
    let mut second = chunks_of(vec![Some(b"priority=5?".to_vec()), Some(vec![b'y'; 600])]);
    let (second_id, evicted) =
        match add::handle(&mut store, &mut db, &mut fs, &mut stats, &mut second).unwrap() {
            AddOutcome::Inline { uuid, evicted, .. } => (uuid, evicted),
            _ => panic!("inline expected"),
        };
    assert_eq!(evicted, vec![first_id]);
    assert_eq!(stats.deleted, 1);
    assert_eq!(stats.inserted, 2);
    assert_eq!(store_msg_count(&store), 1);
    assert!(get::handle(&store, &mut db, &fs, Some(first_id), None, false)
        .unwrap()
        .is_none());
    assert!(get::handle(&store, &mut db, &fs, Some(second_id), None, false)
        .unwrap()
        .is_some());
    // No orphan record: the record store accounts exactly the index's bytes.
    let listed = db.fetch().unwrap();
    assert_eq!(listed.len(), 1);
    let db_total: u64 = listed.iter().map(|(_, b)| *b as u64).sum();
    assert_eq!(db_total, store_byte_size(&store) as u64);
}

#[test]
fn accounting_overflow_is_refused_as_store_max() {
    // The index accounts bytes in 32 bits; a submission the accounting
    // cannot fit is refused as exceeding the store's maximum, instead of
    // overflowing the counter.
    let mut store = store_new();
    let mut db = MemDb::new();
    let mut fs = FileStorage::new(true, b"blob-root".to_vec());
    let mut stats = Stats::new();
    let mut first = one_chunk(b"priority=1&saveToFile=true&byteSizeOverride=4294967295?x");
    let pending = match add::handle(&mut store, &mut db, &mut fs, &mut stats, &mut first).unwrap()
    {
        AddOutcome::Blob { pending, .. } => pending,
        _ => panic!("blob expected"),
    };
    msg_store_server::msg::add::commit_blob(&mut db, &mut fs, pending).unwrap();
    let mut second = one_chunk(b"priority=1&saveToFile=true&byteSizeOverride=100?y");
    let got = match add::handle(&mut store, &mut db, &mut fs, &mut stats, &mut second) {
        Err(e) => e,
        Ok(_) => panic!("a submission past the accounting limit must be refused"),
    };
    assert_eq!(got, ApiErr::MsgExceedesStoreMax);
    assert_eq!(store_msg_count(&store), 1);
    assert_eq!(stats.inserted, 1);
}
