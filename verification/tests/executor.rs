//! Running queries.
use chrono::{TimeZone, Utc};
use logdive::executor::{build_sql, column_for_field, escape_like, is_safe_json_path_segment};
use logdive::query::Fraction;
use logdive::query_parser::parse;
use logdive::store::Bind;
use logdive::time::{compute_last_cutoff, parse_datetime, Timestamp};
use logdive::{
    execute, execute_at, Clause, CompareOp, Duration, DurationUnit, Indexer, LogEntry, LogdiveError,
    QueryNode, QueryValue,
};
use rusqlite::Connection;
use serde_json::Value;
use std::collections::HashSet;

fn at(year: i32, month: u32, day: u32, hour: u32, minute: u32, second: u32) -> Timestamp {
    let t = Utc.with_ymd_and_hms(year, month, day, hour, minute, second).unwrap();
    Timestamp::from_unix(t.timestamp(), 0).unwrap()
}

fn run_query(conn: &Connection, q: &str) -> Vec<LogEntry> {
    let ast = parse(q).expect("test queries are well-formed");
    execute(&ast, conn, None).expect("execute")
}

fn run_query_at(conn: &Connection, q: &str, now: Timestamp) -> Vec<LogEntry> {
    let ast = parse(q).expect("test queries are well-formed");
    execute_at(&ast, conn, None, now).expect("execute")
}

fn make_entry(ts: &str, level: &str, message: &str) -> LogEntry {
    let raw = format!(r#"{{"timestamp":"{ts}","level":"{level}","message":"{message}"}}"#);
    let mut e = LogEntry::new(&raw);
    e.timestamp = Some(ts.to_string());
    e.level = Some(level.to_string());
    e.message = Some(message.to_string());
    e
}

fn fixture() -> Indexer {
    let mut idx = Indexer::open_in_memory().unwrap();
    let mut a = make_entry("2026-04-20T10:00:00Z", "error", "payment failed");
    a.tag = Some("api".into());
    a.fields.insert("service".into(), Value::String("payments".into()));
    a.fields.insert("req_id".into(), Value::from(100));

    let mut b = make_entry("2026-04-20T11:00:00Z", "info", "health check");
    b.tag = Some("api".into());
    b.fields.insert("service".into(), Value::String("payments".into()));
    b.fields.insert("req_id".into(), Value::from(200));

    let mut c = make_entry("2026-04-20T12:00:00Z", "error", "timeout on db call");
    c.fields.insert("service".into(), Value::String("users".into()));
    c.fields.insert("req_id".into(), Value::from(300));

    idx.insert_batch(&[a, b, c]).unwrap();
    idx
}

// --- SQL ---

#[test]
fn compare_on_known_field_binds_value_not_interpolates() {
    let ast = parse("level=error").unwrap();
    let (sql, binds) = build_sql(&ast, None, Timestamp::now()).unwrap();
    assert!(sql.contains("WHERE level = ?"));
    assert!(!sql.contains("error"));
    assert_eq!(binds.len(), 1);
    match &binds[0] {
        Bind::Text(s) => assert_eq!(s, "error"),
        other => panic!("expected text bind, got {other:?}"),
    }
}

#[test]
fn compare_on_unknown_field_uses_json_extract() {
    let ast = parse("service=payments").unwrap();
    let (sql, binds) = build_sql(&ast, None, Timestamp::now()).unwrap();
    assert!(sql.contains("json_extract(fields, '$.service')"));
    assert_eq!(binds.len(), 1);
}

#[test]
fn contains_uses_like_with_escape_and_wildcards() {
    let ast = parse(r#"message contains "timeout""#).unwrap();
    let (sql, binds) = build_sql(&ast, None, Timestamp::now()).unwrap();
    assert!(sql.contains("LIKE ? ESCAPE '\\'"));
    match &binds[0] {
        Bind::Text(s) => assert_eq!(s, "%timeout%"),
        other => panic!("expected text bind, got {other:?}"),
    }
}

#[test]
fn contains_escapes_like_metacharacters() {
    let ast = parse(r#"message contains "50%""#).unwrap();
    let (_, binds) = build_sql(&ast, None, Timestamp::now()).unwrap();
    match &binds[0] {
        Bind::Text(s) => assert_eq!(s, r"%50\%%"),
        other => panic!("unexpected bind: {other:?}"),
    }
}

#[test]
fn last_duration_produces_timestamp_lower_bound() {
    let ast = parse("last 2h").unwrap();
    let now = at(2026, 4, 20, 12, 0, 0);
    let (sql, binds) = build_sql(&ast, None, now).unwrap();
    assert!(sql.contains("timestamp >= ?"));
    match &binds[0] {
        Bind::Text(s) => assert!(s.starts_with("2026-04-20T10:00:00")),
        other => panic!("unexpected bind: {other:?}"),
    }
}

#[test]
fn since_accepts_rfc3339() {
    let ast = parse(r#"since "2024-01-01T10:00:00Z""#).unwrap();
    let (sql, binds) = build_sql(&ast, None, Timestamp::now()).unwrap();
    assert!(sql.contains("timestamp >= ?"));
    match &binds[0] {
        Bind::Text(s) => assert!(s.starts_with("2024-01-01T10:00:00")),
        other => panic!("unexpected: {other:?}"),
    }
}

#[test]
fn since_accepts_bare_date() {
    let ast = parse("since 2024-06-15").unwrap();
    let (_, binds) = build_sql(&ast, None, Timestamp::now()).unwrap();
    match &binds[0] {
        Bind::Text(s) => assert!(s.starts_with("2024-06-15T00:00:00")),
        other => panic!("unexpected: {other:?}"),
    }
}

#[test]
fn since_rejects_garbage() {
    let ast = parse("since not-a-date").unwrap();
    let err = build_sql(&ast, None, Timestamp::now()).unwrap_err();
    assert!(matches!(err, LogdiveError::InvalidDatetime { .. }));
}

#[test]
fn and_chain_joins_with_and_and_preserves_bind_order() {
    let ast = parse("level=error AND service=payments").unwrap();
    let (sql, binds) = build_sql(&ast, None, Timestamp::now()).unwrap();
    assert!(sql.contains("level = ?"));
    assert!(sql.contains("json_extract(fields, '$.service') = ?"));
    assert!(sql.contains(" AND "));
    assert_eq!(binds.len(), 2);
    match (&binds[0], &binds[1]) {
        (Bind::Text(a), Bind::Text(b)) => {
            assert_eq!(a, "error");
            assert_eq!(b, "payments");
        }
        other => panic!("unexpected binds: {other:?}"),
    }
}

#[test]
fn integer_binds_as_integer_not_text() {
    let ast = parse("req_id > 100").unwrap();
    let (_, binds) = build_sql(&ast, None, Timestamp::now()).unwrap();
    match &binds[0] {
        Bind::Integer(n) => assert_eq!(*n, 100),
        other => panic!("expected integer bind, got {other:?}"),
    }
}

#[test]
fn bool_binds_as_integer_zero_or_one() {
    let ast = parse("ok=true").unwrap();
    let (_, binds) = build_sql(&ast, None, Timestamp::now()).unwrap();
    assert!(matches!(binds[0], Bind::Integer(1)));

    let ast = parse("ok=false").unwrap();
    let (_, binds) = build_sql(&ast, None, Timestamp::now()).unwrap();
    assert!(matches!(binds[0], Bind::Integer(0)));
}

#[test]
fn float_binds_as_real() {
    let ast = parse("duration < 1.5").unwrap();
    let (_, binds) = build_sql(&ast, None, Timestamp::now()).unwrap();
    match &binds[0] {
        Bind::Real(f) => {
            let f: f64 = f.numeral().parse().unwrap();
            assert!((f - 1.5).abs() < 1e-9)
        }
        other => panic!("expected real bind, got {other:?}"),
    }
}

#[test]
fn limit_appends_limit_clause() {
    let ast = parse("level=error").unwrap();
    let (sql, _) = build_sql(&ast, Some(50), Timestamp::now()).unwrap();
    assert!(sql.ends_with("LIMIT 50"));
}

#[test]
fn the_whole_statement() {
    let ast = parse("level != error AND a.b contains x last 1d").unwrap();
    let (sql, binds) = build_sql(&ast, Some(7), at(2026, 4, 20, 12, 0, 0)).unwrap();
    assert_eq!(
        sql,
        "SELECT timestamp, level, message, tag, fields, raw FROM log_entries WHERE level IS NOT ? \
         AND json_extract(fields, '$.a.b') LIKE ? ESCAPE '\\' AND timestamp >= ? \
         ORDER BY timestamp DESC, id DESC LIMIT 7"
    );
    assert_eq!(
        binds,
        vec![
            Bind::Text("error".to_string()),
            Bind::Text("%x%".to_string()),
            Bind::Text("2026-04-19T12:00:00".to_string()),
        ]
    );
    assert_eq!(sql.matches('?').count(), binds.len());
}

#[test]
fn a_query_without_clauses_selects_everything() {
    let (sql, binds) = build_sql(&QueryNode::And(vec![]), None, Timestamp::now()).unwrap();
    assert!(sql.contains(" WHERE 1=1 ORDER BY "));
    assert!(binds.is_empty());
}

#[test]
fn the_first_bad_clause_is_reported() {
    let node = QueryNode::And(vec![
        Clause::Compare {
            field: "level".to_string(),
            op: CompareOp::Eq,
            value: QueryValue::Integer(1),
        },
        Clause::Contains { field: "a b".to_string(), value: "x".to_string() },
        Clause::SinceDatetime("never".to_string()),
    ]);
    match build_sql(&node, None, Timestamp::now()) {
        Err(LogdiveError::UnsafeFieldName(name)) => assert_eq!(name, "a b"),
        other => panic!("unexpected: {other:?}"),
    }
}

#[test]
fn statements_do_not_depend_on_values() {
    let now = at(2026, 4, 20, 12, 0, 0);
    let one = build_sql(&parse("a=1 AND b contains x last 1h").unwrap(), None, now).unwrap().0;
    let two = build_sql(&parse("a=\"'; --\" AND b contains y last 9d").unwrap(), None, now)
        .unwrap()
        .0;
    assert_eq!(one, two);
}

// --- Round trips ---

#[test]
fn round_trip_known_field_equality() {
    let idx = fixture();
    let rows = run_query(idx.connection(), "level=error");
    assert_eq!(rows.len(), 2);
    assert!(rows.iter().all(|e| e.level.as_deref() == Some("error")));
}

#[test]
fn round_trip_unknown_field_via_json_extract() {
    let idx = fixture();
    let rows = run_query(idx.connection(), "service=payments");
    assert_eq!(rows.len(), 2);
    assert!(rows
        .iter()
        .all(|e| e.fields.get("service") == Some(&Value::String("payments".into()))));
}

#[test]
fn round_trip_and_chain() {
    let idx = fixture();
    let rows = run_query(idx.connection(), "level=error AND service=payments");
    assert_eq!(rows.len(), 1);
    assert_eq!(rows[0].message.as_deref(), Some("payment failed"));
}

#[test]
fn round_trip_contains_substring_match() {
    let idx = fixture();
    let rows = run_query(idx.connection(), r#"message contains "timeout""#);
    assert_eq!(rows.len(), 1);
    assert!(rows[0].message.as_deref().unwrap().contains("timeout"));
}

#[test]
fn round_trip_numeric_comparison_on_json_field() {
    let idx = fixture();
    let rows = run_query(idx.connection(), "req_id > 150");
    assert_eq!(rows.len(), 2);
    let ids: HashSet<i64> = rows
        .iter()
        .map(|e| e.fields.get("req_id").and_then(|v| v.as_i64()).unwrap())
        .collect();
    assert_eq!(ids, HashSet::from([200, 300]));
}

#[test]
fn round_trip_last_duration_uses_now() {
    let idx = fixture();
    let now = at(2026, 4, 20, 13, 0, 0);
    let rows = run_query_at(idx.connection(), "last 3h", now);
    assert_eq!(rows.len(), 3);

    let rows = run_query_at(idx.connection(), "last 70m", now);
    assert_eq!(rows.len(), 1);
    assert_eq!(rows[0].timestamp.as_deref(), Some("2026-04-20T12:00:00Z"));
}

#[test]
fn round_trip_since_datetime() {
    let idx = fixture();
    let rows = run_query(idx.connection(), "since 2026-04-20T11:00:00Z");
    assert_eq!(rows.len(), 2);
}

#[test]
fn round_trip_results_ordered_newest_first() {
    let idx = fixture();
    let rows = run_query(idx.connection(), "level=error");
    assert!(rows[0].timestamp > rows[1].timestamp);
}

#[test]
fn round_trip_not_equal_operator() {
    let idx = fixture();
    let rows = run_query(idx.connection(), "level!=error");
    assert_eq!(rows.len(), 1);
    assert_eq!(rows[0].level.as_deref(), Some("info"));
}

#[test]
fn round_trip_contains_with_wildcard_character_is_literal() {
    let mut idx = Indexer::open_in_memory().unwrap();
    let a = make_entry("2026-04-20T10:00:00Z", "info", "discount 50% today");
    let b = make_entry("2026-04-20T11:00:00Z", "info", "no special char here");
    idx.insert_batch(&[a, b]).unwrap();

    let rows = run_query(idx.connection(), r#"message contains "50%""#);
    assert_eq!(rows.len(), 1);
    assert!(rows[0].message.as_deref().unwrap().contains("50%"));
}

#[test]
fn round_trip_empty_result_is_empty_vec_not_error() {
    let idx = fixture();
    let rows = run_query(idx.connection(), "level=nonsense");
    assert!(rows.is_empty());
}

#[test]
fn round_trip_reconstructs_fields_map() {
    let idx = fixture();
    let rows = run_query(idx.connection(), "level=error AND service=payments");
    assert_eq!(rows.len(), 1);
    let e = &rows[0];
    assert_eq!(e.fields.get("service"), Some(&Value::String("payments".into())));
    assert_eq!(e.fields.get("req_id").and_then(|v| v.as_i64()), Some(100));
}

#[test]
fn contains_ignores_ascii_case() {
    let idx = fixture();
    assert_eq!(run_query(idx.connection(), "message contains TimeOut").len(), 1);
    assert_eq!(run_query(idx.connection(), "message contains time_ut").len(), 0);
    assert_eq!(run_query(idx.connection(), r#"message contains "time%""#).len(), 0);
    assert_eq!(run_query(idx.connection(), r#"message contains "\""#).len(), 0);
}

#[test]
fn a_limit_caps_the_answer() {
    let idx = fixture();
    let ast = parse("since 2026-01-01").unwrap();
    assert_eq!(execute(&ast, idx.connection(), Some(2)).unwrap().len(), 2);
    assert_eq!(execute(&ast, idx.connection(), Some(0)).unwrap().len(), 0);
    assert_eq!(execute(&ast, idx.connection(), None).unwrap().len(), 3);
}

#[test]
fn fractions_are_compared_as_numbers() {
    let mut idx = Indexer::open_in_memory().unwrap();
    let mut a = make_entry("2026-04-20T10:00:00Z", "info", "fast");
    a.fields.insert("seconds".into(), Value::from(0.25));
    let mut b = make_entry("2026-04-20T11:00:00Z", "info", "slow");
    b.fields.insert("seconds".into(), Value::from(12.5));
    idx.insert_batch(&[a, b]).unwrap();
    let rows = run_query(idx.connection(), "seconds > 1.5");
    assert_eq!(rows.len(), 1);
    assert_eq!(rows[0].message.as_deref(), Some("slow"));
}

#[test]
fn a_query_on_a_database_without_the_table_is_an_error() {
    let conn = Connection::open_in_memory().unwrap();
    let ast = parse("level=error").unwrap();
    assert!(matches!(execute(&ast, &conn, None), Err(LogdiveError::Sqlite(_))));
}

#[test]
fn corrupt_fields_are_an_error() {
    let idx = Indexer::open_in_memory().unwrap();
    idx.connection()
        .execute(
            "INSERT INTO log_entries (timestamp, fields, raw, raw_hash) VALUES ('t', 'oops', '', '')",
            [],
        )
        .unwrap();
    let ast = parse("timestamp=t").unwrap();
    let result = execute(&ast, idx.connection(), None);
    assert!(matches!(result, Err(LogdiveError::CorruptFieldsJson(_))));
}

// --- Field names ---

#[test]
fn unsafe_field_name_is_rejected_at_executor() {
    let result = column_for_field("service; DROP TABLE log_entries--");
    assert!(matches!(result, Err(LogdiveError::UnsafeFieldName(_))));
}

#[test]
fn known_fields_are_columns() {
    for field in ["timestamp", "level", "message", "tag"] {
        assert_eq!(column_for_field(field).unwrap(), field);
    }
    assert_eq!(column_for_field("Level").unwrap(), "json_extract(fields, '$.Level')");
}

#[test]
fn json_path_segments() {
    assert!(is_safe_json_path_segment("_a.b9"));
    assert!(!is_safe_json_path_segment(""));
    assert!(!is_safe_json_path_segment("9a"));
    assert!(!is_safe_json_path_segment(".a"));
    assert!(!is_safe_json_path_segment("a-b"));
    assert!(!is_safe_json_path_segment("a'"));
    assert!(!is_safe_json_path_segment("é"));
}

#[test]
fn like_metacharacters_are_escaped() {
    assert_eq!(escape_like(r"a%b_c\d"), r"a\%b\_c\\d");
    assert_eq!(escape_like("plain"), "plain");
    assert_eq!(escape_like(""), "");
}

// --- Time ---

#[test]
fn a_cutoff_that_cannot_be_represented_is_the_epoch() {
    let now = at(2026, 4, 20, 12, 0, 0);
    let far = Duration { amount: u64::MAX, unit: DurationUnit::Days };
    assert_eq!(compute_last_cutoff(far, now), Timestamp::unix_epoch());
    let day = Duration { amount: 1, unit: DurationUnit::Days };
    assert_eq!(compute_last_cutoff(day, now), at(2026, 4, 19, 12, 0, 0));
    let minutes = Duration { amount: 90, unit: DurationUnit::Minutes };
    assert_eq!(compute_last_cutoff(minutes, now), at(2026, 4, 20, 10, 30, 0));
}

#[test]
fn longer_durations_have_earlier_cutoffs() {
    let now = at(2026, 4, 20, 12, 0, 0);
    let short = Duration { amount: 59, unit: DurationUnit::Minutes };
    let long = Duration { amount: 1, unit: DurationUnit::Hours };
    assert!(
        compute_last_cutoff(long, now).unix_seconds()
            < compute_last_cutoff(short, now).unix_seconds()
    );
}

#[test]
fn datetimes_are_read_in_three_formats() {
    let expected = at(2024, 1, 1, 10, 0, 0);
    assert_eq!(parse_datetime("2024-01-01T10:00:00Z").unwrap(), expected);
    assert_eq!(parse_datetime("2024-01-01T12:00:00+02:00").unwrap(), expected);
    assert_eq!(parse_datetime("2024-01-01T10:00:00").unwrap(), expected);
    assert_eq!(parse_datetime("2024-01-01 10:00:00").unwrap(), expected);
    assert_eq!(parse_datetime("2024-01-01").unwrap(), at(2024, 1, 1, 0, 0, 0));
    match parse_datetime("yesterday") {
        Err(LogdiveError::InvalidDatetime { input, reason }) => {
            assert_eq!(input, "yesterday");
            assert_eq!(reason, "expected RFC3339, `YYYY-MM-DD HH:MM:SS`, or `YYYY-MM-DD`");
        }
        other => panic!("unexpected: {other:?}"),
    }
}

#[test]
fn printed_instants_sort_in_time() {
    let mut instants = vec![
        Timestamp::from_unix(0, 0).unwrap(),
        Timestamp::from_unix(0, 1).unwrap(),
        Timestamp::from_unix(0, 500_000_000).unwrap(),
        Timestamp::from_unix(1, 0).unwrap(),
        at(1999, 12, 31, 23, 59, 59),
        at(2026, 4, 20, 12, 0, 0),
        at(9999, 12, 31, 23, 59, 59),
    ];
    let texts: Vec<String> = instants.iter().map(|t| t.to_rfc3339()).collect();
    let bounds: Vec<String> = instants.drain(..).map(|t| t.to_bound()).collect();
    for pair in bounds.windows(2) {
        assert!(pair[0] < pair[1], "{} does not sort before {}", pair[0], pair[1]);
    }
    assert_eq!(bounds[1], "1970-01-01T00:00:00.000000001");
    for pair in texts.windows(2) {
        assert!(pair[0] < pair[1], "{} does not sort before {}", pair[0], pair[1]);
    }
    assert_eq!(texts[0], "1970-01-01T00:00:00+00:00");
}

#[test]
fn instants_out_of_range_are_none() {
    assert!(Timestamp::from_unix(i64::MAX, 0).is_none());
    assert!(Timestamp::from_unix(0, 1_000_000_000).is_none());
    assert!(Timestamp::from_unix(59, 1_000_000_000).is_some());
    assert_eq!(Timestamp::from_unix(-8_334_601_228_800, 0).unwrap().subsec_nanos(), 0);
    assert!(Timestamp::from_unix(-8_334_601_228_801, 0).is_none());
    assert!(Timestamp::from_unix(8_210_266_876_799, 0).is_some());
    assert!(Timestamp::from_unix(8_210_266_876_800, 0).is_none());
}

#[test]
fn the_bounds_of_time_are_those_of_chrono() {
    let first = Timestamp::from_unix(-8_334_601_228_800, 0).unwrap();
    assert_eq!(first.to_rfc3339(), "-262143-01-01T00:00:00+00:00");
    let last = Timestamp::from_unix(8_210_266_876_799, 0).unwrap();
    assert_eq!(last.to_rfc3339(), "+262142-12-31T23:59:59+00:00");
    assert!(chrono::DateTime::from_timestamp(-8_334_601_228_801, 0).is_none());
    assert!(chrono::DateTime::from_timestamp(8_210_266_876_800, 0).is_none());
}

#[test]
fn the_present_is_after_this_was_written() {
    assert!(Timestamp::now().unix_seconds() > at(2024, 1, 1, 0, 0, 0).unix_seconds());
}

#[test]
fn fractions_are_digits_around_a_point() {
    assert_eq!(Fraction::new("1.5").unwrap().numeral(), "1.5");
    assert_eq!(Fraction::new("-0.25").unwrap().numeral(), "-0.25");
    assert!(Fraction::new("5.").is_some());
    assert!(Fraction::new(".5").is_none());
    assert!(Fraction::new("5").is_none());
    assert!(Fraction::new("1.2.3").is_none());
    assert!(Fraction::new("1e5").is_none());
    assert!(Fraction::new("").is_none());
}

#[test]
fn going_back_from_a_leap_second_starts_at_its_end() {
    let leap = Timestamp::from_unix(59, 1_500_000_000).unwrap();
    let minute = Duration { amount: 1, unit: DurationUnit::Minutes };
    assert_eq!(
        compute_last_cutoff(minute, leap),
        Timestamp::from_unix(0, 500_000_000).unwrap()
    );
    let nothing = Duration { amount: 0, unit: DurationUnit::Minutes };
    assert_eq!(compute_last_cutoff(nothing, leap), leap);
}

#[test]
fn an_entry_without_the_field_is_not_equal() {
    let mut idx = Indexer::open_in_memory().unwrap();
    let mut silent = LogEntry::new("silent");
    silent.timestamp = Some("2026-04-20T10:00:00Z".to_string());
    let healthy = make_entry("2026-04-20T10:00:01Z", "info", "health check ok");
    let other = make_entry("2026-04-20T10:00:02Z", "info", "started");
    idx.insert_batch(&[silent.clone(), healthy, other.clone()]).unwrap();
    let rows = run_query(idx.connection(), "message!=\"health check ok\"");
    assert_eq!(rows, vec![other.clone(), silent.clone()]);
    let rows = run_query(idx.connection(), "service!=payments");
    assert_eq!(rows.len(), 3);
}

#[test]
fn a_bound_is_included_however_the_timestamp_names_its_zone() {
    let mut idx = Indexer::open_in_memory().unwrap();
    idx.insert_batch(&[
        make_entry("2026-04-20T10:59:59", "info", "before"),
        make_entry("2026-04-20T11:00:00", "info", "bare"),
        make_entry("2026-04-20T11:00:00Z", "info", "zulu"),
        make_entry("2026-04-20T11:00:00+00:00", "info", "offset"),
    ])
    .unwrap();
    let found = |rows: Vec<LogEntry>| -> HashSet<String> {
        rows.into_iter().filter_map(|e| e.message).collect()
    };
    let expected: HashSet<String> =
        ["bare", "zulu", "offset"].iter().map(|s| s.to_string()).collect();
    let since = run_query(idx.connection(), "since 2026-04-20T11:00:00");
    assert_eq!(found(since), expected);
    let last = run_query_at(idx.connection(), "last 1h", at(2026, 4, 20, 12, 0, 0));
    assert_eq!(found(last), expected);
}

#[test]
fn a_limit_keeps_the_newest() {
    let idx = fixture();
    let ast = parse("tag=api").unwrap();
    let all = execute(&ast, idx.connection(), None).unwrap();
    assert_eq!(all.len(), 2);
    assert_eq!(all[0].timestamp.as_deref(), Some("2026-04-20T11:00:00Z"));
    for n in 0..4 {
        let some = execute(&ast, idx.connection(), Some(n)).unwrap();
        assert_eq!(some, all[..n.min(2)].to_vec());
    }
}

#[test]
fn a_conjunction_is_what_both_answers_share() {
    let idx = fixture();
    let errors = run_query(idx.connection(), "level=error");
    let payments = run_query(idx.connection(), "service=payments");
    let both = run_query(idx.connection(), "level=error AND service=payments");
    let shared: Vec<LogEntry> =
        errors.iter().filter(|e| payments.contains(e)).cloned().collect();
    assert_eq!(both.len(), 1);
    assert_eq!(both, shared);
}

#[test]
fn all_that_was_stored_is_given_back() {
    let mut idx = Indexer::open_in_memory().unwrap();
    let mut entries = vec![
        make_entry("2026-04-20T10:00:00Z", "info", "second"),
        make_entry("2026-04-20T09:00:00Z", "info", "oldest"),
        make_entry("2026-04-20T10:00:00Z", "warn", "newest"),
    ];
    entries[0].fields.insert("n".into(), Value::from(vec![1, 2]));
    entries[1].tag = Some("api".to_string());
    idx.insert_batch(&entries).unwrap();
    let back = execute(&QueryNode::And(vec![]), idx.connection(), None).unwrap();
    assert_eq!(back, vec![entries[2].clone(), entries[0].clone(), entries[1].clone()]);
}

// --- What clauses ask ---

/// The messages of the entries that a query finds, among entries with these values of `v`.
fn found(values: &[(&str, Value)], query: &str) -> HashSet<String> {
    let mut idx = Indexer::open_in_memory().unwrap();
    let mut entries = vec![make_entry("2026-04-20T10:00:00Z", "info", "absent")];
    for (name, value) in values {
        let mut e = make_entry("2026-04-20T10:00:00Z", "info", name);
        e.fields.insert("v".to_string(), value.clone());
        entries.push(e);
    }
    idx.insert_batch(&entries).unwrap();
    run_query(idx.connection(), query).into_iter().filter_map(|e| e.message).collect()
}

fn names(list: &[&str]) -> HashSet<String> {
    list.iter().map(|s| s.to_string()).collect()
}

#[test]
fn values_are_compared_by_what_they_are() {
    let values = [
        ("null", Value::Null),
        ("yes", Value::Bool(true)),
        ("seven", Value::from(7)),
        ("minus", Value::from(-7)),
        ("text", Value::from("seven")),
        ("digits", Value::from("7")),
        ("list", Value::from(vec![1, 2])),
    ];
    assert_eq!(found(&values, "v=7"), names(&["seven"]));
    assert_eq!(found(&values, "v=\"7\""), names(&["digits"]));
    assert_eq!(found(&values, "v=true"), names(&["yes"]));
    assert_eq!(found(&values, "v=\"[1,2]\""), names(&["list"]));
    assert_eq!(found(&values, "v<1"), names(&["minus"]));
    assert_eq!(found(&values, "v>1"), names(&["seven", "text", "digits", "list"]));
    assert_eq!(found(&values, "v<\"a\""), names(&["yes", "seven", "minus", "digits", "list"]));
    assert_eq!(found(&values, "v>\"a\""), names(&["text"]));
    assert_eq!(
        found(&values, "v!=7"),
        names(&["absent", "null", "yes", "minus", "text", "digits", "list"])
    );
    assert_eq!(found(&values, "v contains \"7\""), names(&["seven", "minus", "digits"]));
    assert_eq!(found(&values, "v contains EVE"), names(&["text"]));
    assert_eq!(found(&values, "v contains \"\""), names(&[
        "yes", "seven", "minus", "text", "digits", "list",
    ]));
}

#[test]
fn known_fields_are_compared_as_text() {
    let mut idx = Indexer::open_in_memory().unwrap();
    let mut entries = Vec::new();
    for tag in ["7", "10", "-7", "1"] {
        let mut e = make_entry("2026-04-20T10:00:00Z", "info", tag);
        e.tag = Some(tag.to_string());
        entries.push(e);
    }
    idx.insert_batch(&entries).unwrap();
    let tags = |q: &str| -> HashSet<String> {
        run_query(idx.connection(), q).into_iter().filter_map(|e| e.tag).collect()
    };
    assert_eq!(tags("tag=7"), names(&["7"]));
    assert_eq!(tags("tag=-7"), names(&["-7"]));
    assert_eq!(tags("tag=true"), names(&["1"]));
    assert_eq!(tags("tag>10"), names(&["7"]));
    assert_eq!(tags("tag<10"), names(&["-7", "1"]));
}

#[test]
fn a_path_goes_through_objects() {
    let mut inner = serde_json::Map::new();
    inner.insert("id".to_string(), Value::from(4));
    let values = [
        ("nested", Value::Object(inner)),
        ("flat", Value::from(4)),
        ("list", Value::from(vec![4])),
    ];
    assert_eq!(found(&values, "v.id=4"), names(&["nested"]));
    assert_eq!(found(&values, "v.id!=4"), names(&["absent", "flat", "list"]));
    assert_eq!(found(&values, "v contains \":4}\""), names(&["nested"]));
}
