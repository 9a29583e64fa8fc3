//! Reading lines.
use logdive::parse_line;
use logdive::LogEntry;
use serde_json::Value;

#[test]
fn parses_a_fully_populated_line() {
    let line = r#"{"timestamp":"2026-04-19T10:00:00Z","level":"error","message":"boom","service":"payments","req_id":42}"#;
    let e = parse_line(line).expect("should parse");

    assert_eq!(e.timestamp.as_deref(), Some("2026-04-19T10:00:00Z"));
    assert_eq!(e.level.as_deref(), Some("error"));
    assert_eq!(e.message.as_deref(), Some("boom"));
    assert!(e.tag.is_none());
    assert_eq!(e.fields.get("service"), Some(&Value::from("payments")));
    assert_eq!(e.fields.get("req_id"), Some(&Value::from(42)));
    assert_eq!(e.raw, line);
}

#[test]
fn missing_known_fields_become_none_without_panic() {
    let e = parse_line(r#"{"level":"info"}"#).expect("should parse");
    assert_eq!(e.level.as_deref(), Some("info"));
    assert!(e.timestamp.is_none());
    assert!(e.message.is_none());
    assert!(e.tag.is_none());
    assert!(e.fields.is_empty());
}

#[test]
fn malformed_json_returns_none() {
    assert!(parse_line(r#"{"level": "error""#).is_none());
    assert!(parse_line("not json at all").is_none());
    assert!(parse_line("{this is broken}").is_none());
}

#[test]
fn empty_and_whitespace_lines_return_none() {
    assert!(parse_line("").is_none());
    assert!(parse_line("   ").is_none());
    assert!(parse_line("\t\n").is_none());
}

#[test]
fn valid_json_but_not_an_object_returns_none() {
    assert!(parse_line("42").is_none());
    assert!(parse_line(r#""hello""#).is_none());
    assert!(parse_line("[1,2,3]").is_none());
    assert!(parse_line("true").is_none());
    assert!(parse_line("null").is_none());
}

#[test]
fn unknown_keys_land_in_fields_map() {
    let e = parse_line(r#"{"user_id":"u-1","duration_ms":123,"ok":true}"#).expect("should parse");
    assert_eq!(e.fields.len(), 3);
    assert_eq!(e.fields.get("user_id"), Some(&Value::from("u-1")));
    assert_eq!(e.fields.get("duration_ms"), Some(&Value::from(123)));
    assert_eq!(e.fields.get("ok"), Some(&Value::from(true)));
}

#[test]
fn numeric_level_is_stringified() {
    let e = parse_line(r#"{"level":3}"#).expect("should parse");
    assert_eq!(e.level.as_deref(), Some("3"));
    assert!(e.fields.is_empty());
}

#[test]
fn boolean_and_null_known_fields_are_stringified() {
    let e = parse_line(r#"{"tag":true,"message":null}"#).expect("should parse");
    assert_eq!(e.tag.as_deref(), Some("true"));
    assert_eq!(e.message.as_deref(), Some("null"));
}

#[test]
fn object_valued_known_field_is_preserved_in_fields_map() {
    let line = r#"{"message":{"code":500,"text":"err"}}"#;
    let e = parse_line(line).expect("should parse");
    assert!(e.message.is_none());
    let mut object = serde_json::Map::new();
    object.insert("code".to_string(), Value::from(500));
    object.insert("text".to_string(), Value::from("err"));
    assert_eq!(e.fields.get("message"), Some(&Value::Object(object)));
}

#[test]
fn array_valued_known_field_is_preserved_in_fields_map() {
    let e = parse_line(r#"{"tag":["a","b"]}"#).expect("should parse");
    assert!(e.tag.is_none());
    assert_eq!(
        e.fields.get("tag"),
        Some(&Value::Array(vec![Value::from("a"), Value::from("b")]))
    );
}

#[test]
fn raw_is_preserved_verbatim_including_whitespace() {
    let line = "  {\"level\":\"info\"}  ";
    let e = parse_line(line).expect("should parse");
    assert_eq!(e.raw, line);
}

#[test]
fn empty_json_object_is_a_valid_entry() {
    let e = parse_line("{}").expect("should parse");
    assert!(e.timestamp.is_none());
    assert!(e.level.is_none());
    assert!(e.message.is_none());
    assert!(e.tag.is_none());
    assert!(e.fields.is_empty());
    assert_eq!(e.raw, "{}");
}

#[test]
fn every_member_is_lifted_or_left_over() {
    let e = parse_line(r#"{"timestamp":"t","level":["x"],"message":"m","tag":false,"n":1.5}"#)
        .expect("should parse");
    assert_eq!(e.timestamp.as_deref(), Some("t"));
    assert_eq!(e.message.as_deref(), Some("m"));
    assert_eq!(e.tag.as_deref(), Some("false"));
    assert!(e.level.is_none());
    assert_eq!(e.fields.len(), 2);
    assert_eq!(e.fields.get("level"), Some(&Value::Array(vec![Value::from("x")])));
    assert_eq!(e.fields.get("n"), Some(&Value::from(1.5)));
}

#[test]
fn a_fraction_is_lifted_as_its_text() {
    let e = parse_line(r#"{"level":2.50}"#).expect("should parse");
    assert_eq!(e.level.as_deref(), Some("2.5"));
}

#[test]
fn a_tag_is_attached_where_the_entry_has_none() {
    let tagged = LogEntry::new("{}").with_tag(Some("api".to_string()));
    assert_eq!(tagged.tag.as_deref(), Some("api"));

    let own = parse_line(r#"{"tag":"own"}"#).unwrap().with_tag(Some("api".to_string()));
    assert_eq!(own.tag.as_deref(), Some("own"));

    let list = parse_line(r#"{"tag":["own"]}"#).unwrap().with_tag(Some("api".to_string()));
    assert!(list.tag.is_none());

    let none = LogEntry::new("{}").with_tag(None);
    assert!(none.tag.is_none());
}

#[test]
fn a_clone_is_the_same_entry() {
    let e = parse_line(r#"{"timestamp":"t","a":1}"#).unwrap();
    let c = e.clone();
    assert_eq!(c, e);
    assert_eq!(c.fields.len(), 1);
}
