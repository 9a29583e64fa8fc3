//! Ingestion runs.
use logdive::ingest::{Ingest, IngestReport};
use logdive::progress::{summary_text, Progress};
use logdive::{execute, parse_query, Indexer, LogdiveError, BATCH_SIZE};

#[test]
fn every_line_that_counts_is_counted_once() {
    let mut idx = Indexer::open_in_memory().unwrap();
    let mut run = Ingest::new(None);
    let lines = [
        Some(r#"{"timestamp":"1","message":"a"}"#),
        Some(r#"{"timestamp":"1","message":"a"}"#),
        Some(r#"{"message":"no time"}"#),
        Some("oops"),
        Some("[]"),
        Some(""),
        Some("   "),
        None,
    ];
    for line in lines {
        assert!(!run.ingest_line(line, &mut idx).unwrap());
    }
    run.finish(&mut idx).unwrap();
    let report = run.report();
    assert_eq!(
        report,
        IngestReport {
            inserted: 1,
            deduplicated: 1,
            skipped_no_timestamp: 1,
            malformed: 2,
            io_errors: 1,
        }
    );
    assert_eq!(report.total_seen(), 6);
}

#[test]
fn a_full_batch_is_stored_at_once() {
    let mut idx = Indexer::open_in_memory().unwrap();
    let mut run = Ingest::new(None);
    let mut stored = 0;
    for i in 0..BATCH_SIZE + 5 {
        let line = format!(r#"{{"timestamp":"t","n":{i}}}"#);
        if run.ingest_line(Some(&line), &mut idx).unwrap() {
            stored += 1;
            assert_eq!(i, BATCH_SIZE - 1);
        }
    }
    assert_eq!(stored, 1);
    assert_eq!(run.report().inserted, BATCH_SIZE);
    run.finish(&mut idx).unwrap();
    assert_eq!(run.report().inserted, BATCH_SIZE + 5);
    assert_eq!(idx.stats().unwrap().entries, (BATCH_SIZE + 5) as u64);
}

#[test]
fn ingesting_again_adds_nothing() {
    let mut idx = Indexer::open_in_memory().unwrap();
    let lines = [r#"{"timestamp":"1"}"#, r#"{"timestamp":"2"}"#, r#"{"level":"x"}"#];
    let mut reports = Vec::new();
    for tag in [None, Some("again".to_string())] {
        let mut run = Ingest::new(tag);
        for line in lines {
            run.take_line(Some(line));
        }
        run.take_line(Some("oops"));
        run.take_line(None);
        run.finish(&mut idx).unwrap();
        reports.push(run.report());
    }
    assert_eq!(reports[0].inserted, 2);
    assert_eq!(reports[1].inserted, 0);
    assert_eq!(reports[1].deduplicated, 2);
    assert_eq!(reports[1].skipped_no_timestamp, 1);
    assert_eq!(reports[1].malformed, reports[0].malformed);
    assert_eq!(reports[1].io_errors, reports[0].io_errors);
    assert_eq!(idx.stats().unwrap().entries, 2);
    assert_eq!(idx.stats().unwrap().tags, vec![None]);
}

#[test]
fn the_tag_of_the_run_is_attached() {
    let mut idx = Indexer::open_in_memory().unwrap();
    let mut run = Ingest::new(Some("prod".to_string()));
    run.take_line(Some(r#"{"timestamp":"1"}"#));
    run.take_line(Some(r#"{"timestamp":"2","tag":"own"}"#));
    run.finish(&mut idx).unwrap();
    let tagged = parse_query("tag=prod").unwrap();
    assert_eq!(execute(&tagged, idx.connection(), None).unwrap().len(), 1);
    let own = parse_query("tag=own").unwrap();
    assert_eq!(execute(&own, idx.connection(), None).unwrap().len(), 1);
}

#[test]
fn a_run_with_nothing_waiting_finishes() {
    let mut idx = Indexer::open_in_memory().unwrap();
    let mut run = Ingest::new(None);
    run.finish(&mut idx).unwrap();
    assert_eq!(run.report(), IngestReport::default());
}

#[test]
fn a_failed_batch_waits_on() {
    let mut idx = Indexer::open_in_memory().unwrap();
    idx.connection().execute_batch("DROP TABLE log_entries").unwrap();
    let mut run = Ingest::new(None);
    run.take_line(Some(r#"{"timestamp":"1"}"#));
    assert!(matches!(run.flush(&mut idx), Err(LogdiveError::Sqlite(_))));
    assert_eq!(run.report(), IngestReport::default());
}

#[test]
fn progress_is_shown_at_first_and_then_now_and_again() {
    let report = IngestReport {
        inserted: 1000,
        deduplicated: 20,
        skipped_no_timestamp: 3,
        malformed: 4,
        io_errors: 5,
    };
    let line = "ingesting:    1032 seen |    1000 new |    20 dup |    12 skip |   12345 lines/s";

    let mut tty = Progress::new(true);
    assert_eq!(tty.tick(&report, 10, "12345"), Some(format!("\r{line}")));
    assert_eq!(tty.tick(&report, 259, "12345"), None);
    assert!(tty.tick(&report, 260, "12345").is_some());
    assert!(tty.tick(&report, 509, "12345").is_none());
    assert_eq!(tty.finish(&report, "12345"), format!("\r{line}\n"));

    let mut pipe = Progress::new(false);
    assert_eq!(pipe.tick(&report, 0, "12345"), Some(format!("{line}\n")));
    assert_eq!(pipe.tick(&report, 999, "12345"), None);
    assert!(pipe.tick(&report, 1000, "12345").is_some());
    assert_eq!(pipe.finish(&report, "12345"), format!("{line}\n"));
}

#[test]
fn wide_numbers_are_not_cut() {
    let report = IngestReport { inserted: 123456789, ..IngestReport::default() };
    assert_eq!(
        Progress::new(false).render(&report, "1234567890"),
        "ingesting: 123456789 seen | 123456789 new |     0 dup |     0 skip | 1234567890 lines/s\n"
    );
}

#[test]
fn the_summary_mentions_unread_lines_where_there_are_any() {
    let mut report = IngestReport {
        inserted: 1,
        deduplicated: 2,
        skipped_no_timestamp: 3,
        malformed: 4,
        io_errors: 0,
    };
    let text = "ingest complete in 1.50s (7 lines/s)\n  inserted:     1\n  deduplicated: 2\n  \
                no timestamp: 3\n  malformed:    4\n";
    assert_eq!(summary_text(&report, "1.50", "7"), text);
    report.io_errors = 5;
    assert_eq!(
        summary_text(&report, "1.50", "7"),
        format!("{text}  io errors:    5\n")
    );
}
