//! Requests and responses.
use logdive::api::{
    build_ndjson_response, entry_to_json_string, ndjson_body, plan_query, row_limit, version_reply,
    AppError, QueryParams, StatsResponse, DEFAULT_LIMIT,
};
use logdive::{parse_line, parse_query, Indexer, LogEntry, LogdiveError};
use serde_json::Value;

fn sample_entry() -> LogEntry {
    let raw = r#"{"timestamp":"2026-04-22T14:03:21Z","level":"error","message":"boom"}"#;
    let mut e = LogEntry::new(raw);
    e.timestamp = Some("2026-04-22T14:03:21Z".to_string());
    e.level = Some("error".to_string());
    e.message = Some("boom".to_string());
    e
}

#[test]
fn entry_to_json_string_is_valid_json_with_expected_shape() {
    let e = sample_entry();
    let s = entry_to_json_string(&e);
    let v: Value = serde_json::from_str(&s).expect("valid json");
    assert_eq!(v["timestamp"], "2026-04-22T14:03:21Z");
    assert_eq!(v["level"], "error");
    assert_eq!(v["message"], "boom");
    assert!(v["tag"].is_null());
    assert!(v["fields"].is_object());
    assert!(v["raw"].is_string());
}

#[test]
fn entry_to_json_string_preserves_tag_and_fields() {
    let mut e = sample_entry();
    e.tag = Some("api".to_string());
    e.fields
        .insert("service".to_string(), Value::String("payments".to_string()));

    let s = entry_to_json_string(&e);
    let v: Value = serde_json::from_str(&s).unwrap();
    assert_eq!(v["tag"], "api");
    assert_eq!(v["fields"]["service"], "payments");
}

#[test]
fn stats_response_from_core_round_trips_all_fields() {
    let mut idx = Indexer::open_in_memory().unwrap();
    let mut e = sample_entry();
    e.tag = Some("api".to_string());
    idx.insert_batch(&[e]).unwrap();

    let stats = idx.stats().unwrap();
    let resp = StatsResponse::from_core(stats, "/tmp/idx.db".to_string(), 4096);

    assert_eq!(resp.entries, 1);
    assert_eq!(resp.db_path, "/tmp/idx.db");
    assert_eq!(resp.db_size_bytes, 4096);
    assert_eq!(resp.tags, vec![Some("api".to_string())]);

    let v: Value = serde_json::from_str(&resp.to_json_string()).unwrap();
    assert_eq!(v["entries"], 1);
    assert_eq!(v["db_path"], "/tmp/idx.db");
    assert_eq!(v["db_size_bytes"], 4096);
    assert_eq!(v["tags"][0], "api");
}

#[test]
fn stats_response_renders_null_for_empty_time_bounds() {
    let idx = Indexer::open_in_memory().unwrap();
    let stats = idx.stats().unwrap();
    let resp = StatsResponse::from_core(stats, "/tmp/empty.db".to_string(), 0);

    let v: Value = serde_json::from_str(&resp.to_json_string()).unwrap();
    assert!(v["min_timestamp"].is_null());
    assert!(v["max_timestamp"].is_null());
    assert_eq!(v["tags"].as_array().unwrap().len(), 0);
}

#[test]
fn build_ndjson_response_sets_correct_content_type() {
    let mut e = sample_entry();
    e.tag = Some("api".to_string());
    let resp = build_ndjson_response(&[e]);

    assert_eq!(resp.status, 200);
    assert_eq!(resp.content_type, "application/x-ndjson");
}

#[test]
fn build_ndjson_response_is_ok_for_empty_results() {
    let resp = build_ndjson_response(&[]);
    assert_eq!(resp.status, 200);
    assert_eq!(resp.body, "");
}

#[test]
fn the_line_of_an_entry() {
    let e = parse_line(r#"{"timestamp":"t","x":1}"#).unwrap();
    assert_eq!(
        entry_to_json_string(&e),
        r#"{"fields":{"x":1},"level":null,"message":null,"raw":"{\"timestamp\":\"t\",\"x\":1}","tag":null,"timestamp":"t"}"#
    );
}

#[test]
fn one_line_for_each_entry() {
    let mut e = sample_entry();
    e.message = Some("two\nlines".to_string());
    e.fields.insert("s".to_string(), Value::from("a\r\nb"));
    let body = ndjson_body(&[e, sample_entry()]);
    assert_eq!(body.lines().count(), 2);
    assert_eq!(body.matches('\n').count(), 2);
    assert!(body.ends_with('\n'));
    for line in body.lines() {
        let v: Value = serde_json::from_str(line).unwrap();
        assert_eq!(v["level"], "error");
    }
}

#[test]
fn the_whole_stats_response() {
    let resp = StatsResponse {
        entries: 12,
        min_timestamp: Some("a".to_string()),
        max_timestamp: None,
        tags: vec![None, Some("x".to_string())],
        db_size_bytes: 8400000,
        db_path: "/p".to_string(),
    };
    let reply = resp.into_reply();
    assert_eq!(reply.status, 200);
    assert_eq!(reply.content_type, "application/json");
    assert_eq!(
        reply.body,
        r#"{"entries":12,"min_timestamp":"a","max_timestamp":null,"tags":[null,"x"],"db_size_bytes":8400000,"db_path":"/p"}"#
    );
}

#[test]
fn a_request_without_a_query_is_refused() {
    for q in [None, Some("".to_string()), Some(" \t\u{a0}".to_string())] {
        let e = plan_query(&QueryParams { q, limit: None }).unwrap_err();
        assert_eq!(e.status, 400);
        assert_eq!(e.message, "missing or empty `q` parameter");
    }
}

#[test]
fn a_request_with_a_bad_query_is_refused() {
    let params = QueryParams { q: Some("  level error".to_string()), limit: None };
    let e = plan_query(&params).unwrap_err();
    assert_eq!(e.status, 400);
    assert_eq!(e.message, "expected =, !=, >, < or CONTAINS at byte 6");
}

#[test]
fn limits_of_requests() {
    let plan = |limit| {
        plan_query(&QueryParams { q: Some(" level=error ".to_string()), limit }).unwrap()
    };
    let (ast, limit) = plan(None);
    assert_eq!(ast, parse_query("level=error").unwrap());
    assert_eq!(limit, Some(DEFAULT_LIMIT));
    assert_eq!(plan(Some(0)).1, None);
    assert_eq!(plan(Some(50)).1, Some(50));
    assert_eq!(row_limit(0), None);
    assert_eq!(row_limit(1), Some(1));
    assert_eq!(DEFAULT_LIMIT, 1000);
}

#[test]
fn errors_of_the_client_are_told_and_others_are_not() {
    let parse_error = LogdiveError::QueryParse(parse_query("").unwrap_err());
    let e = AppError::from_error(&parse_error);
    assert_eq!(e.status, 400);
    assert_eq!(e.message, "the query is empty at byte 0");

    let datetime = LogdiveError::InvalidDatetime {
        input: "x".to_string(),
        reason: "r".to_string(),
    };
    assert_eq!(AppError::from_error(&datetime).message, "invalid datetime `x`: r");
    assert_eq!(AppError::from_error(&datetime).status, 400);

    let name = LogdiveError::UnsafeFieldName("a b".to_string());
    assert_eq!(AppError::from_error(&name).message, "unsafe field name `a b`");
    assert_eq!(AppError::from_error(&name).status, 400);

    let storage = LogdiveError::Sqlite(rusqlite::Error::InvalidQuery);
    let e = AppError::from_error(&storage);
    assert_eq!(e.status, 500);
    assert_eq!(e.message, "internal server error");
    let corrupt =
        LogdiveError::CorruptFieldsJson(serde_json::from_str::<Value>("oops").unwrap_err());
    assert_eq!(AppError::from_error(&corrupt).status, 500);
}

#[test]
fn error_responses_are_json() {
    let reply = AppError::bad_request("say \"q\"").into_reply();
    assert_eq!(reply.status, 400);
    assert_eq!(reply.content_type, "application/json");
    assert_eq!(reply.body, r#"{"error":"say \"q\""}"#);
}

#[test]
fn reports_tell_query_errors_apart() {
    let parse_error = LogdiveError::QueryParse(parse_query("a=1 OR b=2").unwrap_err());
    assert_eq!(
        parse_error.report(),
        "logdive: query error: OR is not supported in v1; it is deferred to v2 at byte 4"
    );
    let storage = LogdiveError::Sqlite(rusqlite::Error::InvalidQuery);
    assert_eq!(storage.report(), "logdive: database error: Query is not read-only");
    let corrupt =
        LogdiveError::CorruptFieldsJson(serde_json::from_str::<Value>("oops").unwrap_err());
    assert_eq!(
        corrupt.message(),
        "corrupt fields: expected value at line 1 column 1"
    );
}

#[test]
fn the_version_names_formats_and_endpoints() {
    let reply = version_reply();
    assert_eq!(reply.status, 200);
    assert_eq!(reply.content_type, "application/json");
    let v: Value = serde_json::from_str(&reply.body).unwrap();
    assert_eq!(v["version"], "0.1.0");
    assert_eq!(v["formats"], Value::from(vec!["json"]));
    assert_eq!(v["capabilities"], Value::from(vec!["query", "stats", "version"]));
}

#[test]
fn a_response_has_a_line_for_each_entry() {
    let mut breaking = sample_entry();
    breaking.message = Some("one\ntwo\n".to_string());
    let rows = [sample_entry(), breaking, sample_entry()];
    let body = build_ndjson_response(&rows).body;
    assert_eq!(body.matches('\n').count(), 3);
    assert!(body.ends_with('\n'));
}

#[test]
fn stats_without_entries_are_null() {
    let resp = StatsResponse {
        entries: 0,
        min_timestamp: None,
        max_timestamp: None,
        tags: vec![],
        db_size_bytes: 0,
        db_path: "a \"b\"".to_string(),
    };
    assert_eq!(
        resp.to_json_string(),
        r#"{"entries":0,"min_timestamp":null,"max_timestamp":null,"tags":[],"db_size_bytes":0,"db_path":"a \"b\""}"#
    );
}
