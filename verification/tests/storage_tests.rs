use aetherium::storage::clusters::{cluster_top_files, first_occurrences};
use aetherium::storage::error::{SqliteError, StorageError};
use aetherium::storage::schema::{dims_from_schema, embeddings_table_sql};
use aetherium::storage::sqlite_version::{SqliteStoreVersion, TriggerTables};
use aetherium::storage::storage_types::{FileInSystem, SyncEvent};
use aetherium::storage::sync::{
    dims_events, is_text, needs_update, plan_sync, record_identity, sync_events, sync_record,
};
use aetherium::storage::utils::{
    convert_datestring, excerpt_around, get_data_extension, hash_blocks, updated_at_trigger_sql,
};
use aetherium::storage::versions::{load_storageversion, StorageV1, StorageVersion};

fn ids(v: &[&str]) -> Vec<String> {
    v.iter().map(|s| s.to_string()).collect()
}

#[test]
fn sync_plan_partitions_ids() {
    let fs = ids(&["a", "b", "c"]);
    let sql = ids(&["b", "d"]);
    let p = plan_sync(&fs, &sql);
    assert_eq!(p.removed, ids(&["d"]));
    assert_eq!(p.added, ids(&["a", "c"]));
    assert_eq!(p.kept, ids(&["b"]));
    let mut after: Vec<String> = sql.iter().filter(|x| !p.removed.contains(x)).cloned().collect();
    after.extend(p.added.iter().cloned());
    after.sort();
    assert_eq!(after, fs);
}

#[test]
fn new_files_keep_uuid_names() {
    let u = "67e55044-10b1-426f-9247-bb680e5fe0c8";
    let (id, name, rename) = record_identity(u);
    assert_eq!((id.as_str(), name.as_str(), rename), (u, "Untitled", false));
    let (id, name, rename) = record_identity("notes.txt");
    assert!(rename);
    assert_eq!(name, "notes.txt");
    assert_eq!(id.len(), 36);
    assert!(uuid::Uuid::parse_str(&id).is_ok());
}

#[test]
fn sync_records_and_events() {
    let f = FileInSystem { id: "x".into(), extention: "text/plain".into(), modified_at: "2024".into() };
    let r = sync_record("x".into(), "Untitled".into(), "h".into(), &f);
    assert_eq!(r.created_at.as_deref(), Some("2024"));
    assert_eq!(r.modified_at.as_deref(), Some("2024"));
    assert!(r.embedded_at.is_none() && r.indexed_at.is_none());
    assert_eq!(r.extension, "text/plain");
    assert!(dims_events(384, 384).is_empty());
    let ev = dims_events(384, 768);
    assert!(matches!(ev[0], SyncEvent::DimsMISMATCH { previous: 384, proposed: 768 }));
    assert!(matches!(ev[1], SyncEvent::DIMSChanged { previous: 384, now: 768 }));
    assert!(is_text("text/markdown"));
    assert!(!is_text("image/png"));
    assert!(needs_update("a", "b"));
    assert!(!needs_update("a", "a"));
}

#[test]
fn uuid_forms() {
    for (id, keeps) in [
        ("67e55044-10b1-426f-9247-bb680e5fe0c8", true),
        ("67e5504410b1426f9247bb680e5fe0c8", true),
        ("{67e55044-10b1-426f-9247-bb680e5fe0c8}", true),
        ("URN:uuid:67e55044-10b1-426f-9247-bb680e5fe0c8", true),
        ("67e55044-10b1-426f-9247-bb680e5fe0cz", false),
        ("", false),
    ] {
        let (new_id, _, renamed) = record_identity(id);
        assert_eq!(!renamed, keeps, "{id:?}");
        assert_eq!(new_id == id, keeps, "{id:?}");
    }
}

#[test]
fn hashes_are_of_the_whole_content() {
    let empty = hash_blocks(&Vec::new());
    assert_eq!(empty, "af1349b9f5f9a1a6a0404dea36dcc9499bcb25c9adc112b7cc9a93cae41f3262");
    let whole = hash_blocks(&vec![b"hello world".to_vec()]);
    assert_eq!(whole, blake3::hash(b"hello world").to_hex().to_string());
    assert_eq!(hash_blocks(&vec![b"hello".to_vec(), b" world".to_vec()]), whole);
    assert_ne!(whole, empty);
}

#[test]
fn excerpts_widen_to_sentences() {
    let text = "First one. Second one here! Third.";
    assert_eq!(excerpt_around(text, 14, 16), "Second one here!");
    assert_eq!(excerpt_around(text, 0, 3), "First one.");
    assert_eq!(excerpt_around(text, 30, 100), "Third.");
    assert_eq!(excerpt_around("", 0, 5), "");
    assert_eq!(excerpt_around("abc", 2, 1), "abc");
}

#[test]
fn mime_types_from_content_or_name() {
    let png = [0x89u8, 0x50, 0x4E, 0x47, 0x0D, 0x0A, 0x1A, 0x0A];
    assert_eq!(get_data_extension(&png, Some("txt")), "image/png");
    assert_eq!(get_data_extension(b"plain", Some("md")), "text/markdown");
    assert_eq!(get_data_extension(b"plain", Some("txt")), "text/plain");
    assert_eq!(get_data_extension(b"plain", Some("csv")), "text/csv");
    assert_eq!(get_data_extension(b"plain", Some("json")), "text/json");
    assert_eq!(get_data_extension(b"plain", Some("rs")), "unknown-content");
    assert_eq!(get_data_extension(b"plain", None), "unknown-content");
}

#[test]
fn dates_are_formatted_in_utc() {
    assert_eq!(convert_datestring(1431648000).as_deref(), Some("2015-05-15 00:00:00"));
    assert_eq!(convert_datestring(0).as_deref(), Some("1970-01-01 00:00:00"));
}

#[test]
fn schema_dims_round_trip() {
    for d in [0u32, 7, 384, 4294967295] {
        assert_eq!(dims_from_schema(&embeddings_table_sql(d)), Some(d));
    }
    assert_eq!(dims_from_schema("CREATE VIRTUAL TABLE x USING vec0(embedding FLOAT[12])"), Some(12));
    assert_eq!(dims_from_schema("no floats here"), None);
    assert_eq!(dims_from_schema("FLOAT[abc]"), None);
    assert_eq!(dims_from_schema("FLOAT[99999999999]"), None);
    assert_eq!(dims_from_schema("FLOAT[5 FLOAT[6]"), None);
    assert_eq!(dims_from_schema("FLOAT[+5]"), Some(5));
}

#[test]
fn trigger_statement() {
    let t = TriggerTables { table_name: "files".into(), col: "modified_at".into() };
    let s = updated_at_trigger_sql(&t);
    let expected = format!(
        "create trigger if not exists update_{table_name}_{col_name}
                    after update on {table_name}
                    begin 
                    update {table_name}
                    set {col_name} = current_timestamp
                    where id = old.id;
                    end;
                ",
        table_name = "files",
        col_name = "modified_at"
    );
    assert_eq!(s, expected);
}

#[test]
fn cluster_summaries() {
    let rows = vec![
        (1i64, "a".to_string()),
        (2, "x".to_string()),
        (1, "b".to_string()),
        (1, "c".to_string()),
        (1, "d".to_string()),
    ];
    assert_eq!(cluster_top_files(&rows, 1), Some(ids(&["a", "b", "c"])));
    assert_eq!(cluster_top_files(&rows, 2), Some(ids(&["x"])));
    assert_eq!(cluster_top_files(&rows, 3), None);
    assert_eq!(first_occurrences(&ids(&["f1", "f2", "f1", "f3", "f2"])), vec![0, 1, 3]);
}

#[test]
fn versions_and_errors() {
    assert_eq!(StorageVersion::parse("v1"), Some(StorageVersion::V1));
    assert_eq!(StorageVersion::parse("v2"), None);
    assert_eq!(StorageVersion::V1.as_str(), "v1");
    assert_eq!(SqliteStoreVersion::parse("v1"), Some(SqliteStoreVersion::V1));
    assert_eq!(SqliteStoreVersion::latest().as_str(), "v1");
    assert_eq!(StorageV1.all_folders(), ["data", "database", "indexed"]);
    assert_eq!(load_storageversion(&StorageVersion::V1).version(), StorageVersion::V1);
    let e = StorageError::not_found("f1");
    assert_eq!(e, StorageError::NotFound("file not found: f1".into()));
    assert_eq!(StorageError::corrupt("f1"), StorageError::NotFound("file corrupted: f1".into()));
    assert_eq!(StorageError::permission("f1"), StorageError::NotFound("permission denied: f1".into()));
    assert_eq!(StorageError::invalid_file_id("f1"), StorageError::NotFound("file not found: f1".into()));
    assert_eq!(StorageError::Io("x".into()).message(), "io error");
    assert!(StorageError::Corrupt("x".into()).is_fatal());
    assert!(!StorageError::Io("x".into()).is_fatal());
    assert_eq!(SqliteError::LockPoisoned.message(), "Mutex lock poisoned");
    let s: StorageError = SqliteError::OpenFail("o".into()).into();
    assert_eq!(s, StorageError::SqliteError(SqliteError::OpenFail("o".into())));
}

#[test]
fn sync_events_order_and_counts() {
    let removed = vec!["r1".to_string()];
    let pending = vec!["p1".to_string(), "p2".to_string()];
    let added = vec![("a1".to_string(), "notes.txt".to_string())];
    let kept = vec!["k1".to_string(), "k2".to_string(), "k3".to_string()];
    let changed = vec![true, false, true];
    let ev = sync_events(384, 768, &removed, &pending, &added, &kept, &changed);
    assert_eq!(ev.len(), 9);
    assert!(matches!(ev[0], SyncEvent::DimsMISMATCH { previous: 384, proposed: 768 }));
    assert!(matches!(ev[1], SyncEvent::DIMSChanged { previous: 384, now: 768 }));
    assert!(matches!(&ev[2], SyncEvent::FileRemoved { id } if id == "r1"));
    assert!(matches!(&ev[3], SyncEvent::FileEmbeddingPending { id } if id == "p1"));
    assert!(matches!(&ev[4], SyncEvent::FileEmbeddingPending { id } if id == "p2"));
    assert!(matches!(&ev[5], SyncEvent::FileAdded { id, name } if id == "a1" && name == "notes.txt"));
    assert!(matches!(&ev[6], SyncEvent::FileUpdated { id } if id == "k1"));
    assert!(matches!(&ev[7], SyncEvent::FileUpdated { id } if id == "k3"));
    assert!(matches!(ev[8], SyncEvent::Done { added: 1, removed: 1, updated: 2 }));

    let quiet = sync_events(384, 384, &vec![], &vec![], &vec![], &vec!["k".to_string()], &vec![false]);
    assert_eq!(quiet.len(), 1);
    assert!(matches!(quiet[0], SyncEvent::Done { added: 0, removed: 0, updated: 0 }));
}
