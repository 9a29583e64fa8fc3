//! What an ingestion run shows while it is under way and at its end.
//!
//! On a terminal one line is written over and over; elsewhere each report is a line of its own and
//! there are fewer of them. The texts are made here and written elsewhere.
use crate::ingest::IngestReport;
use crate::text;
use crate::text::{align_right, decimal_text};
use vstd::prelude::*;
use vstd::string::*;

verus! {

/// The milliseconds between two reports on a terminal.
pub const TTY_INTERVAL_MS: u64 = 250;

/// The milliseconds between two reports elsewhere.
pub const PIPE_INTERVAL_MS: u64 = 1000;

/// Shows the progress of a run, but not too often.
#[derive(Debug)]
pub struct Progress {
    tty: bool,
    /// When progress was last shown, in milliseconds by a clock that does not go back.
    last_tick: Option<u64>,
    tick_interval: u64,
}

/// What a [`Progress`] is.
#[verifier::ext_equal]
pub struct ProgressModel {
    pub tty: bool,
    pub last_tick: Option<u64>,
    pub tick_interval: u64,
}

impl View for Progress {
    type V = ProgressModel;

    closed spec fn view(&self) -> ProgressModel {
        ProgressModel {
            tty: self.tty,
            last_tick: self.last_tick,
            tick_interval: self.tick_interval,
        }
    }
}

/// Whether progress is to be shown at `now`: it never was, or the interval has passed.
pub open spec fn due(p: ProgressModel, now: u64) -> bool {
    match p.last_tick {
        None => true,
        Some(last) => now - last >= p.tick_interval,
    }
}

/// Progress of which nothing has been shown.
pub open spec fn nothing_shown(tty: bool) -> ProgressModel {
    ProgressModel {
        tty,
        last_tick: None,
        tick_interval: if tty {
            TTY_INTERVAL_MS
        } else {
            PIPE_INTERVAL_MS
        },
    }
}

/// A number in a column of its own.
pub open spec fn column(n: nat, width: nat) -> Seq<char> {
    text::right_aligned(text::decimal(n), width)
}

/// The lines that came to nothing.
pub open spec fn passed_over(report: IngestReport) -> nat {
    report.malformed as nat + report.skipped_no_timestamp as nat + report.io_errors as nat
}

/// The counts of a run, in columns.
pub open spec fn counts_line(report: IngestReport, rate: Seq<char>) -> Seq<char> {
    "ingesting: "@ + column(report.total(), 7) + " seen | "@ + column(report.inserted as nat, 7)
        + " new | "@ + column(report.deduplicated as nat, 5) + " dup | "@ + column(
        passed_over(report),
        5,
    ) + " skip | "@ + text::right_aligned(rate, 7) + " lines/s"@
}

/// The counts as they are shown: over the line before on a terminal, as a line elsewhere.
pub open spec fn shown(tty: bool, report: IngestReport, rate: Seq<char>) -> Seq<char> {
    if tty {
        "\r"@ + counts_line(report, rate)
    } else {
        counts_line(report, rate) + "\n"@
    }
}

/// The last counts of a run. On a terminal they end their line, so that what follows begins one.
pub open spec fn shown_last(tty: bool, report: IngestReport, rate: Seq<char>) -> Seq<char> {
    if tty {
        shown(tty, report, rate) + "\n"@
    } else {
        shown(tty, report, rate)
    }
}

/// One line of the summary.
pub open spec fn summary_line(label: Seq<char>, n: nat) -> Seq<char> {
    label + text::decimal(n) + "\n"@
}

/// The summary of a run. Lines that could not be read are mentioned where there were any.
pub open spec fn summary(report: IngestReport, seconds: Seq<char>, rate: Seq<char>) -> Seq<char> {
    "ingest complete in "@ + seconds + "s ("@ + rate + " lines/s)\n"@ + summary_line(
        "  inserted:     "@,
        report.inserted as nat,
    ) + summary_line("  deduplicated: "@, report.deduplicated as nat) + summary_line(
        "  no timestamp: "@,
        report.skipped_no_timestamp as nat,
    ) + summary_line("  malformed:    "@, report.malformed as nat) + (if report.io_errors > 0 {
        summary_line("  io errors:    "@, report.io_errors as nat)
    } else {
        seq![]
    })
}

/// Progress is shown at first, and then no sooner than an interval after it was last shown.
pub proof fn progress_is_throttled(p: ProgressModel, shown_at: u64, now: u64)
    requires
        shown_at <= now,
    ensures
        p.last_tick is None ==> due(p, now),
        due(ProgressModel { last_tick: Some(shown_at), ..p }, now) <==> now - shown_at
            >= p.tick_interval,
{
}

/// Progress is shown at once, and then up to four times a second on a terminal and once a second
/// elsewhere.
pub proof fn intervals_divide_a_second(now: u64)
    ensures
        due(nothing_shown(true), now),
        due(nothing_shown(false), now),
        nothing_shown(true).tick_interval * 4 == 1000,
        nothing_shown(false).tick_interval == 1000,
        nothing_shown(true).tty,
        !nothing_shown(false).tty,
{
}

/// A number in a column: its numeral, with spaces in front up to the width of the column.
pub open spec fn in_column(n: nat, width: int, shown: Seq<char>) -> bool {
    let numeral = text::decimal(n);
    &&& shown.len() == (if numeral.len() < width {
        width
    } else {
        numeral.len() as int
    })
    &&& shown.skip(shown.len() - numeral.len()) == numeral
    &&& forall|i: int| 0 <= i < shown.len() - numeral.len() ==> #[trigger] shown[i] == ' '
}

/// The counts that are shown: all lines that were counted, then the new ones, the duplicates, and
/// those that came to nothing, each in its column.
pub proof fn counts_stand_in_columns(report: IngestReport, rate: Seq<char>) -> (r: (
    Seq<char>,
    Seq<char>,
    Seq<char>,
    Seq<char>,
))
    ensures
        counts_line(report, rate) == "ingesting: "@ + r.0 + " seen | "@ + r.1 + " new | "@ + r.2
            + " dup | "@ + r.3 + " skip | "@ + text::right_aligned(rate, 7) + " lines/s"@,
        in_column(
            (report.inserted + report.deduplicated + report.skipped_no_timestamp
                + report.malformed + report.io_errors) as nat,
            7,
            r.0,
        ),
        in_column(report.inserted as nat, 7, r.1),
        in_column(report.deduplicated as nat, 5, r.2),
        in_column(
            (report.malformed + report.skipped_no_timestamp + report.io_errors) as nat,
            5,
            r.3,
        ),
{
    text::aligning_adds_spaces_in_front(text::decimal(report.total()), 7);
    text::aligning_adds_spaces_in_front(text::decimal(report.inserted as nat), 7);
    text::aligning_adds_spaces_in_front(text::decimal(report.deduplicated as nat), 5);
    text::aligning_adds_spaces_in_front(text::decimal(passed_over(report)), 5);
    (
        column(report.total(), 7),
        column(report.inserted as nat, 7),
        column(report.deduplicated as nat, 5),
        column(passed_over(report), 5),
    )
}

/// On a terminal the counts are written over the line before, and only the last ones end it;
/// elsewhere every report is a line.
pub proof fn counts_are_shown_as_lines(report: IngestReport, rate: Seq<char>)
    ensures
        shown(true, report, rate) == "\r"@ + counts_line(report, rate),
        shown(false, report, rate) == counts_line(report, rate) + "\n"@,
        shown_last(true, report, rate) == "\r"@ + counts_line(report, rate) + "\n"@,
        shown_last(false, report, rate) == counts_line(report, rate) + "\n"@,
{
}

/// The summary gives each count of the report on a line of its own.
pub proof fn summaries_give_every_count(report: IngestReport, seconds: Seq<char>, rate: Seq<char>)
    ensures
        ({
            let counts = "ingest complete in "@ + seconds + "s ("@ + rate + " lines/s)\n"@ + (
            "  inserted:     "@ + text::decimal(report.inserted as nat) + "\n"@) + (
            "  deduplicated: "@ + text::decimal(report.deduplicated as nat) + "\n"@) + (
            "  no timestamp: "@ + text::decimal(report.skipped_no_timestamp as nat) + "\n"@) + (
            "  malformed:    "@ + text::decimal(report.malformed as nat) + "\n"@);
            summary(report, seconds, rate) == counts + (if report.io_errors > 0 {
                "  io errors:    "@ + text::decimal(report.io_errors as nat) + "\n"@
            } else {
                seq![]
            })
        }),
{
}

fn append_column(line: &mut String, n: usize, width: usize)
    ensures
        final(line)@ == old(line)@ + column(n as nat, width as nat),
{
    line.append(align_right(decimal_text(n as u64).as_str(), width).as_str());
}

fn append_summary_line(out: &mut String, label: &str, n: usize)
    ensures
        final(out)@ == old(out)@ + summary_line(label@, n as nat),
{
    let mut line = label.to_owned();
    line.append(decimal_text(n as u64).as_str());
    line.append("\n");
    out.append(line.as_str());
}

impl Progress {
    /// Progress of which nothing has been shown, for a terminal or not.
    pub fn new(tty: bool) -> (r: Progress)
        ensures
            r@ == nothing_shown(tty),
    {
        Progress {
            tty,
            last_tick: None,
            tick_interval: if tty {
                TTY_INTERVAL_MS
            } else {
                PIPE_INTERVAL_MS
            },
        }
    }

    /// What to show at `now`, if anything is due.
    pub fn tick(&mut self, report: &IngestReport, now: u64, rate: &str) -> (r: Option<String>)
        requires
            report.total() <= usize::MAX,
        ensures
            if due(old(self)@, now) {
                (r matches Some(t) && t@ == shown(old(self)@.tty, *report, rate@)) && final(self)@
                    == (ProgressModel { last_tick: Some(now), ..old(self)@ })
            } else {
                r is None && final(self)@ == old(self)@
            },
    {
        if let Some(last) = self.last_tick {
            if now < last || now - last < self.tick_interval {
                return None;
            }
        }
        self.last_tick = Some(now);
        Some(self.render(report, rate))
    }

    /// What to show when the run is over.
    pub fn finish(&self, report: &IngestReport, rate: &str) -> (r: String)
        requires
            report.total() <= usize::MAX,
        ensures
            r@ == shown_last(self@.tty, *report, rate@),
    {
        let mut r = self.render(report, rate);
        if self.tty {
            r.append("\n");
        }
        r
    }

    /// The counts as they are shown.
    pub fn render(&self, report: &IngestReport, rate: &str) -> (r: String)
        requires
            report.total() <= usize::MAX,
        ensures
            r@ == shown(self@.tty, *report, rate@),
    {
        let mut line = "ingesting: ".to_owned();
        append_column(&mut line, report.total_seen(), 7);
        line.append(" seen | ");
        append_column(&mut line, report.inserted, 7);
        line.append(" new | ");
        append_column(&mut line, report.deduplicated, 5);
        line.append(" dup | ");
        append_column(
            &mut line,
            report.malformed + report.skipped_no_timestamp + report.io_errors,
            5,
        );
        line.append(" skip | ");
        line.append(align_right(rate, 7).as_str());
        line.append(" lines/s");
        if self.tty {
            let mut r = "\r".to_owned();
            r.append(line.as_str());
            r
        } else {
            line.append("\n");
            line
        }
    }
}

/// The summary of a run that took so many seconds at such a rate.
pub fn summary_text(report: &IngestReport, seconds: &str, rate: &str) -> (r: String)
    ensures
        r@ == summary(*report, seconds@, rate@),
{
    let mut r = "ingest complete in ".to_owned();
    r.append(seconds);
    r.append("s (");
    r.append(rate);
    r.append(" lines/s)\n");
    append_summary_line(&mut r, "  inserted:     ", report.inserted);
    append_summary_line(&mut r, "  deduplicated: ", report.deduplicated);
    append_summary_line(&mut r, "  no timestamp: ", report.skipped_no_timestamp);
    append_summary_line(&mut r, "  malformed:    ", report.malformed);
    if report.io_errors > 0 {
        append_summary_line(&mut r, "  io errors:    ", report.io_errors);
    }
    r
}

} // verus!
