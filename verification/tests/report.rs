//! What is shown of an index.
use logdive::report::{grouped_text, index_report_text, megabytes_text, pretty_line};
use logdive::{parse_line, LogEntry, Stats};

#[test]
fn digits_are_grouped() {
    assert_eq!(grouped_text(0), "0");
    assert_eq!(grouped_text(999), "999");
    assert_eq!(grouped_text(1000), "1,000");
    assert_eq!(grouped_text(42317), "42,317");
    assert_eq!(grouped_text(8_400_000), "8,400,000");
    assert_eq!(grouped_text(u64::MAX), "18,446,744,073,709,551,615");
}

#[test]
fn megabytes_are_rounded_to_tenths() {
    assert_eq!(megabytes_text(0), "0.0");
    assert_eq!(megabytes_text(49_999), "0.0");
    assert_eq!(megabytes_text(50_000), "0.1");
    assert_eq!(megabytes_text(8_400_000), "8.4");
    assert_eq!(megabytes_text(999_960), "1.0");
    assert_eq!(megabytes_text(u64::MAX), "18446744073709.6");
}

#[test]
fn the_report_of_an_index() {
    let stats = Stats {
        entries: 42317,
        min_timestamp: Some("2026-03-14T08:22:01Z".to_string()),
        max_timestamp: Some("2026-04-22T19:45:03Z".to_string()),
        tags: vec![
            None,
            Some("api".to_string()),
            Some("nginx".to_string()),
            Some("payments".to_string()),
            Some("worker".to_string()),
        ],
    };
    assert_eq!(
        index_report_text("/home/user/.logdive/index.db", &stats, 8_400_000),
        "logdive index: /home/user/.logdive/index.db
  Entries:       42,317
  Time range:    2026-03-14T08:22:01Z → 2026-04-22T19:45:03Z
  Tags:          api, nginx, payments, worker, (untagged)
  DB size:       8.4 MB (8,400,000 bytes)
"
    );
}

#[test]
fn the_report_of_an_empty_index() {
    let stats = Stats {
        entries: 0,
        min_timestamp: None,
        max_timestamp: None,
        tags: vec![],
    };
    let text = index_report_text("i.db", &stats, 0);
    assert!(text.contains("Time range:    (none)\n"));
    assert!(text.contains("Tags:          (none)\n"));

    let tagged = Stats {
        tags: vec![Some("a".to_string()), Some("b".to_string())],
        ..stats
    };
    assert!(index_report_text("i.db", &tagged, 0).contains("Tags:          a, b\n"));
}

#[test]
fn entries_for_people() {
    let e = parse_line(
        r#"{"timestamp":"2026-04-20T10:00:00Z","level":"Error","message":"boom","tag":"api","n":1}"#,
    )
    .unwrap();
    assert_eq!(
        pretty_line(&e, false),
        "2026-04-20T10:00:00Z Error [api] boom {\"n\":1}\n"
    );
    assert_eq!(
        pretty_line(&e, true),
        "2026-04-20T10:00:00Z \u{1b}[31mError\u{1b}[0m [api] boom {\"n\":1}\n"
    );
    assert_eq!(pretty_line(&LogEntry::new("{}"), false), "- -\n");
    assert_eq!(pretty_line(&LogEntry::new("{}"), true), "- \u{1b}[36m-\u{1b}[0m\n");
    let mut warned = LogEntry::new("{}");
    warned.level = Some("WARN".to_string());
    assert_eq!(pretty_line(&warned, true), "- \u{1b}[33mWARN\u{1b}[0m\n");
    warned.level = Some("info".to_string());
    assert_eq!(pretty_line(&warned, true), "- \u{1b}[32minfo\u{1b}[0m\n");
}
