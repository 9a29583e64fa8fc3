//! Storing entries.
use logdive::executor::rows_to_entries;
use logdive::indexer::{directory_error, directory_to_create, row_for};
use logdive::store::StoredRow;
use logdive::{db_path, Indexer, InsertStats, LogEntry, LogdiveError, BATCH_SIZE};
use serde_json::Value;

fn make_entry(ts: &str, level: &str, message: &str) -> LogEntry {
    let raw = format!(r#"{{"timestamp":"{ts}","level":"{level}","message":"{message}"}}"#);
    let mut e = LogEntry::new(&raw);
    e.timestamp = Some(ts.to_string());
    e.level = Some(level.to_string());
    e.message = Some(message.to_string());
    e
}

fn count_rows(idx: &Indexer) -> i64 {
    idx.connection()
        .query_row("SELECT COUNT(*) FROM log_entries", [], |row| row.get(0))
        .unwrap()
}

#[test]
fn open_in_memory_creates_table_and_three_indexes() {
    let idx = Indexer::open_in_memory().expect("open in-memory");
    let table_count: i64 = idx
        .connection()
        .query_row(
            "SELECT COUNT(*) FROM sqlite_master \
             WHERE type='table' AND name='log_entries'",
            [],
            |row| row.get(0),
        )
        .unwrap();
    assert_eq!(table_count, 1);

    let index_count: i64 = idx
        .connection()
        .query_row(
            "SELECT COUNT(*) FROM sqlite_master \
             WHERE type='index' AND name IN ('idx_level','idx_tag','idx_timestamp')",
            [],
            |row| row.get(0),
        )
        .unwrap();
    assert_eq!(index_count, 3);
}

#[test]
fn insert_batch_adds_rows_and_reports_stats() {
    let mut idx = Indexer::open_in_memory().unwrap();
    let entries = vec![
        make_entry("2026-04-20T10:00:00Z", "info", "one"),
        make_entry("2026-04-20T10:00:01Z", "error", "two"),
    ];
    let stats = idx.insert_batch(&entries).unwrap();

    assert_eq!(stats.inserted, 2);
    assert_eq!(stats.deduplicated, 0);
    assert_eq!(stats.skipped_no_timestamp, 0);
    assert_eq!(count_rows(&idx), 2);
}

#[test]
fn reinsert_is_deduplicated_by_raw_hash() {
    let mut idx = Indexer::open_in_memory().unwrap();
    let entries = vec![make_entry("2026-04-20T10:00:00Z", "info", "hello")];

    let first = idx.insert_batch(&entries).unwrap();
    assert_eq!(first.inserted, 1);
    assert_eq!(first.deduplicated, 0);

    let second = idx.insert_batch(&entries).unwrap();
    assert_eq!(second.inserted, 0);
    assert_eq!(second.deduplicated, 1);
    assert_eq!(count_rows(&idx), 1);
}

#[test]
fn entries_without_timestamp_are_skipped_not_fabricated() {
    let mut idx = Indexer::open_in_memory().unwrap();
    let mut no_ts = LogEntry::new(r#"{"level":"info"}"#);
    no_ts.level = Some("info".to_string());

    let stats = idx.insert_batch(&[no_ts]).unwrap();
    assert_eq!(stats.inserted, 0);
    assert_eq!(stats.skipped_no_timestamp, 1);
    assert_eq!(count_rows(&idx), 0);
}

#[test]
fn mixed_batch_counts_each_outcome_category() {
    let mut idx = Indexer::open_in_memory().unwrap();
    idx.insert_batch(&[make_entry("2026-04-20T10:00:00Z", "info", "first")])
        .unwrap();

    let mut no_ts = LogEntry::new(r#"{"level":"warn"}"#);
    no_ts.level = Some("warn".to_string());

    let mixed = vec![
        make_entry("2026-04-20T10:00:00Z", "info", "first"),
        make_entry("2026-04-20T10:00:05Z", "error", "second"),
        no_ts,
    ];
    let stats = idx.insert_batch(&mixed).unwrap();
    assert_eq!(stats.inserted, 1);
    assert_eq!(stats.deduplicated, 1);
    assert_eq!(stats.skipped_no_timestamp, 1);
}

#[test]
fn fields_are_stored_as_json_queryable_via_json_extract() {
    let mut idx = Indexer::open_in_memory().unwrap();
    let mut e = make_entry("2026-04-20T10:00:00Z", "info", "hi");
    e.fields.insert("service".to_string(), Value::from("payments"));
    e.fields.insert("req_id".to_string(), Value::from(42));
    idx.insert_batch(&[e]).unwrap();

    let service: String = idx
        .connection()
        .query_row(
            "SELECT json_extract(fields, '$.service') FROM log_entries",
            [],
            |row| row.get(0),
        )
        .unwrap();
    assert_eq!(service, "payments");

    let req_id: i64 = idx
        .connection()
        .query_row(
            "SELECT json_extract(fields, '$.req_id') FROM log_entries",
            [],
            |row| row.get(0),
        )
        .unwrap();
    assert_eq!(req_id, 42);
}

#[test]
fn empty_fields_round_trip_as_empty_json_object_not_null() {
    let mut idx = Indexer::open_in_memory().unwrap();
    idx.insert_batch(&[make_entry("2026-04-20T10:00:00Z", "info", "x")])
        .unwrap();

    let stored: String = idx
        .connection()
        .query_row("SELECT fields FROM log_entries", [], |row| row.get(0))
        .unwrap();
    assert_eq!(stored, "{}");
}

#[test]
fn raw_hash_is_a_64_char_hex_blake3_digest() {
    let mut idx = Indexer::open_in_memory().unwrap();
    idx.insert_batch(&[make_entry("2026-04-20T10:00:00Z", "info", "hash me")])
        .unwrap();

    let stored_hash: String = idx
        .connection()
        .query_row("SELECT raw_hash FROM log_entries", [], |row| row.get(0))
        .unwrap();
    assert_eq!(stored_hash.len(), 64);
    assert!(stored_hash.chars().all(|c| c.is_ascii_hexdigit()));
}

#[test]
fn chunking_handles_batches_larger_than_batch_size() {
    let mut idx = Indexer::open_in_memory().unwrap();
    let total = BATCH_SIZE + 337;
    let entries: Vec<_> = (0..total)
        .map(|i| make_entry("2026-04-20T10:00:00Z", "info", &format!("message-{i}")))
        .collect();

    let stats = idx.insert_batch(&entries).unwrap();
    assert_eq!(stats.inserted, total);
    assert_eq!(stats.deduplicated, 0);
    assert_eq!(count_rows(&idx), total as i64);
}

#[test]
fn db_path_returns_override_verbatim() {
    assert_eq!(
        db_path(Some("/tmp/logdive-test/override.db"), Some("/home/user")),
        "/tmp/logdive-test/override.db"
    );
}

#[test]
fn db_path_default_ends_with_standard_location() {
    let default = db_path(None, Some("/home/user"));
    assert!(default.ends_with(".logdive/index.db"));
}

#[test]
fn db_path_is_in_the_home_directory_or_else_here() {
    assert_eq!(db_path(None, Some("/home/user")), "/home/user/.logdive/index.db");
    assert_eq!(db_path(None, Some("/home/user/")), "/home/user/.logdive/index.db");
    assert_eq!(db_path(None, Some("/")), "/.logdive/index.db");
    assert_eq!(db_path(None, Some("")), ".logdive/index.db");
    assert_eq!(db_path(None, None), "./.logdive/index.db");
}

#[test]
fn a_directory_is_created_only_where_the_path_names_one() {
    assert_eq!(directory_to_create(None), None);
    assert_eq!(directory_to_create(Some("")), None);
    assert_eq!(directory_to_create(Some("/var/log")), Some("/var/log".to_string()));
    assert_eq!(
        directory_error("/var/log", "permission denied"),
        "failed to create directory /var/log: permission denied"
    );
}

/// A directory of this name, as the program makes one before it opens an index.
fn directory_in(parent: &std::path::Path, name: &str) -> tempfile::TempDir {
    tempfile::Builder::new().prefix(name).rand_bytes(0).tempdir_in(parent).unwrap()
}

/// The library names the directory, the program makes it, and the index is opened in it.
#[test]
fn open_creates_parent_directory_and_is_idempotent_across_opens() {
    let dir = tempfile::tempdir().unwrap();
    let db = dir.path().join("sub").join("dir").join("index.db");
    let named = directory_to_create(db.parent().and_then(|p| p.to_str()));
    let sub = directory_in(dir.path(), "sub");
    let made = directory_in(sub.path(), "dir");
    assert_eq!(named.as_deref(), made.path().to_str());
    let db = db.to_str().unwrap();

    {
        let mut idx = Indexer::open(db).expect("first open");
        idx.insert_batch(&[make_entry("2026-04-20T10:00:00Z", "info", "persist me")])
            .unwrap();
    }

    {
        let idx = Indexer::open(db).expect("second open");
        assert_eq!(count_rows(&idx), 1);
        let indexes: i64 = idx
            .connection()
            .query_row(
                "SELECT COUNT(*) FROM sqlite_master \
                 WHERE type='index' AND name IN ('idx_level','idx_tag','idx_timestamp')",
                [],
                |row| row.get(0),
            )
            .unwrap();
        assert_eq!(indexes, 3);
    }
}

#[test]
fn reading_alone_finds_the_rows_and_writes_none() {
    let dir = tempfile::tempdir().unwrap();
    let db = dir.path().join("index.db");
    let db = db.to_str().unwrap();
    assert!(matches!(Indexer::open_read_only(db), Err(LogdiveError::Sqlite(_))));

    let entries = [make_entry("2026-04-20T10:00:00Z", "info", "kept")];
    Indexer::open(db).unwrap().insert_batch(&entries).unwrap();
    let mut reader = Indexer::open_read_only(db).unwrap();
    assert_eq!(count_rows(&reader), 1);
    let more = [make_entry("2026-04-20T10:00:01Z", "info", "refused")];
    assert!(matches!(reader.insert_batch(&more), Err(LogdiveError::Sqlite(_))));
    assert_eq!(count_rows(&reader), 1);
}

#[test]
fn what_is_no_database_cannot_be_opened() {
    let dir = tempfile::tempdir().unwrap();
    let path = dir.path().to_str().unwrap();
    assert!(matches!(Indexer::open(path), Err(LogdiveError::Sqlite(_))));
    assert!(matches!(Indexer::open_read_only(path), Err(LogdiveError::Sqlite(_))));
}

#[test]
fn an_insertion_that_cannot_be_prepared_fails_whatever_the_entries() {
    let mut idx = Indexer::open_in_memory().unwrap();
    idx.connection().execute_batch("DROP TABLE log_entries").unwrap();
    let result = idx.insert_batch(&[LogEntry::new("no time")]);
    assert!(matches!(result, Err(LogdiveError::Sqlite(_))));
    assert_eq!(idx.insert_batch(&[]).unwrap(), InsertStats::default());
}

#[test]
fn every_transaction_prepares_its_insertion_anew() {
    let mut idx = Indexer::open_in_memory().unwrap();
    idx.insert_batch(&[make_entry("2026-04-20T10:00:00Z", "info", "a")]).unwrap();
    idx.connection().execute_batch("DROP TABLE log_entries").unwrap();
    let result = idx.insert_batch(&[LogEntry::new("no time")]);
    assert!(matches!(result, Err(LogdiveError::Sqlite(_))));
}

#[test]
fn an_index_whose_schema_is_refused_is_not_opened() {
    let dir = tempfile::tempdir().unwrap();
    let db = dir.path().join("index.db");
    let db = db.to_str().unwrap();
    rusqlite::Connection::open(db)
        .unwrap()
        .execute_batch("CREATE TABLE log_entries (other TEXT)")
        .unwrap();
    assert!(matches!(Indexer::open(db), Err(LogdiveError::Sqlite(_))));
}

#[test]
fn an_empty_batch_does_nothing() {
    let mut idx = Indexer::open_in_memory().unwrap();
    assert_eq!(idx.insert_batch(&[]).unwrap(), InsertStats::default());
}

#[test]
fn stats_add_up() {
    let mut total = InsertStats { inserted: 1, deduplicated: 2, skipped_no_timestamp: 3 };
    total.extend(InsertStats { inserted: 10, deduplicated: 20, skipped_no_timestamp: 30 });
    assert_eq!(
        total,
        InsertStats { inserted: 11, deduplicated: 22, skipped_no_timestamp: 33 }
    );
}

#[test]
fn each_fate_is_counted_apart() {
    let mut stats = InsertStats::default();
    stats.count(None);
    stats.count(Some(0));
    stats.count(Some(0));
    stats.count(Some(1));
    stats.count(Some(1));
    stats.count(Some(1));
    assert_eq!(
        stats,
        InsertStats { inserted: 3, deduplicated: 2, skipped_no_timestamp: 1 }
    );
}

#[test]
fn equal_lines_in_one_batch_have_one_row() {
    let mut idx = Indexer::open_in_memory().unwrap();
    let e = make_entry("2026-04-20T10:00:00Z", "info", "twice");
    let stats = idx.insert_batch(&[e.clone(), e]).unwrap();
    assert_eq!(
        stats,
        InsertStats { inserted: 1, deduplicated: 1, skipped_no_timestamp: 0 }
    );
}

#[test]
fn the_digest_is_that_of_the_line() {
    let row = row_for(&LogEntry::new(""));
    assert_eq!(
        row.raw_hash,
        "af1349b9f5f9a1a6a0404dea36dcc9499bcb25c9adc112b7cc9a93cae41f3262"
    );
    assert_ne!(row_for(&LogEntry::new("a")).raw_hash, row.raw_hash);
}

#[test]
fn a_stored_entry_reads_back() {
    let mut e = make_entry("2026-04-20T10:00:00Z", "info", "round trip");
    e.tag = Some("api".to_string());
    e.fields.insert("n".to_string(), Value::from(-7));
    e.fields.insert("s".to_string(), Value::from("a \"quoted\"\nline"));
    let hashed = row_for(&e);
    assert_eq!(hashed.row.fields, r#"{"n":-7,"s":"a \"quoted\"\nline"}"#);
    let back = rows_to_entries(vec![Ok(hashed.row)]).unwrap();
    assert_eq!(back, vec![e]);
}

#[test]
fn a_row_with_corrupt_fields_is_an_error() {
    let row = StoredRow {
        timestamp: Some("t".to_string()),
        level: None,
        message: None,
        tag: None,
        fields: "[1]".to_string(),
        raw: "{}".to_string(),
    };
    let result = rows_to_entries(vec![Ok(row), Err(rusqlite::Error::InvalidQuery)]);
    assert!(matches!(result, Err(LogdiveError::CorruptFieldsJson(_))));
    let result = rows_to_entries(vec![Err(rusqlite::Error::InvalidQuery)]);
    assert!(matches!(result, Err(LogdiveError::Sqlite(_))));
}

#[test]
fn stats_of_an_index() {
    let mut idx = Indexer::open_in_memory().unwrap();
    let empty = idx.stats().unwrap();
    assert_eq!(empty.entries, 0);
    assert!(empty.min_timestamp.is_none());
    assert!(empty.max_timestamp.is_none());
    assert!(empty.tags.is_empty());

    let mut a = make_entry("2026-04-20T10:00:00Z", "info", "a");
    a.tag = Some("web".to_string());
    let mut b = make_entry("2026-04-20T11:00:00Z", "info", "b");
    b.tag = Some("api".to_string());
    let c = make_entry("2026-04-20T12:00:00Z", "info", "c");
    idx.insert_batch(&[a, b, c]).unwrap();

    let stats = idx.stats().unwrap();
    assert_eq!(stats.entries, 3);
    assert_eq!(stats.min_timestamp.as_deref(), Some("2026-04-20T10:00:00Z"));
    assert_eq!(stats.max_timestamp.as_deref(), Some("2026-04-20T12:00:00Z"));
    assert_eq!(
        stats.tags,
        vec![None, Some("api".to_string()), Some("web".to_string())]
    );
}

#[test]
fn a_failed_transaction_is_rolled_back() {
    let mut idx = Indexer::open_in_memory().unwrap();
    idx.connection()
        .execute_batch(
            "CREATE TRIGGER refuse BEFORE INSERT ON log_entries WHEN NEW.message = 'bad' \
             BEGIN SELECT RAISE(ABORT, 'refused'); END;",
        )
        .unwrap();
    let result = idx.insert_batch(&[
        make_entry("2026-04-20T10:00:00Z", "info", "good"),
        make_entry("2026-04-20T10:00:01Z", "info", "bad"),
    ]);
    match result {
        Err(LogdiveError::Sqlite(e)) => assert_eq!(e.to_string(), "refused"),
        other => panic!("expected the error of the write, got {other:?}"),
    }
    assert_eq!(count_rows(&idx), 0);
}

#[test]
fn a_failed_batch_keeps_the_transactions_before_it() {
    let mut idx = Indexer::open_in_memory().unwrap();
    idx.connection()
        .execute_batch(
            "CREATE TRIGGER refuse BEFORE INSERT ON log_entries WHEN NEW.message = 'bad' \
             BEGIN SELECT RAISE(ABORT, 'refused'); END;",
        )
        .unwrap();
    let mut entries = Vec::new();
    for i in 0..3 * BATCH_SIZE {
        let message = if i == BATCH_SIZE + 7 { "bad".to_string() } else { format!("m{i}") };
        entries.push(make_entry("2026-04-20T10:00:00Z", "info", &message));
    }
    assert!(matches!(idx.insert_batch(&entries), Err(LogdiveError::Sqlite(_))));
    assert_eq!(count_rows(&idx), BATCH_SIZE as i64);

    idx.connection().execute_batch("DROP TRIGGER refuse").unwrap();
    let stats = idx.insert_batch(&entries).unwrap();
    assert_eq!(stats.inserted, 2 * BATCH_SIZE);
    assert_eq!(stats.deduplicated, BATCH_SIZE);
    assert_eq!(count_rows(&idx), 3 * BATCH_SIZE as i64);
}

#[test]
fn where_a_batch_is_cut_does_not_matter() {
    let entries = vec![
        make_entry("2026-04-20T10:00:00Z", "info", "a"),
        make_entry("2026-04-20T10:00:01Z", "info", "b"),
        make_entry("2026-04-20T10:00:00Z", "info", "a"),
        LogEntry::new("no time"),
        make_entry("2026-04-20T10:00:02Z", "info", "c"),
    ];
    let mut whole = Indexer::open_in_memory().unwrap();
    let all = whole.insert_batch(&entries).unwrap();
    for cut in 0..=entries.len() {
        let mut idx = Indexer::open_in_memory().unwrap();
        let a = idx.insert_batch(&entries[..cut]).unwrap();
        let b = idx.insert_batch(&entries[cut..]).unwrap();
        assert_eq!(a.inserted + b.inserted, all.inserted);
        assert_eq!(a.deduplicated + b.deduplicated, all.deduplicated);
        assert_eq!(a.skipped_no_timestamp + b.skipped_no_timestamp, 1);
        assert_eq!(count_rows(&idx), count_rows(&whole));
    }
}

#[test]
fn inserting_again_adds_nothing_whatever_the_tag() {
    let mut idx = Indexer::open_in_memory().unwrap();
    let mut entries = vec![
        make_entry("2026-04-20T10:00:00Z", "info", "a"),
        make_entry("2026-04-20T10:00:01Z", "info", "b"),
        LogEntry::new("no time"),
    ];
    idx.insert_batch(&entries).unwrap();
    idx.insert_batch(&[make_entry("2026-04-20T10:00:02Z", "info", "c")]).unwrap();
    entries[0].tag = Some("other".to_string());
    let again = idx.insert_batch(&entries).unwrap();
    assert_eq!(
        again,
        InsertStats { inserted: 0, deduplicated: 2, skipped_no_timestamp: 1 }
    );
    assert_eq!(count_rows(&idx), 3);
    assert_eq!(idx.stats().unwrap().tags, vec![None]);
}

#[test]
fn a_nested_member_with_a_reserved_name_is_read_by_its_meaning() {
    let mut inner = serde_json::Map::new();
    inner.insert("$serde_json::private::RawValue".to_string(), Value::from("[1]"));
    let mut e = make_entry("2026-04-20T10:00:00Z", "info", "reserved");
    e.fields.insert("o".to_string(), Value::Object(inner));
    let hashed = row_for(&e);
    assert_eq!(hashed.row.fields, r#"{"o":{"$serde_json::private::RawValue":"[1]"}}"#);
    let back = rows_to_entries(vec![Ok(hashed.row)]).unwrap();
    assert_eq!(back[0].fields["o"], Value::from(vec![1]));
    assert_eq!(back[0].raw, e.raw);

    let mut top = make_entry("2026-04-20T10:00:00Z", "info", "top");
    top.fields.insert("$serde_json::private::RawValue".to_string(), Value::from("[1]"));
    let back = rows_to_entries(vec![Ok(row_for(&top).row)]).unwrap();
    assert_eq!(back, vec![top]);
}
