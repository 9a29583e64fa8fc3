//! An ingestion run: lines in, batches out, and what became of each line.
//!
//! The lines come from outside, one by one; so do the clock and the rate. What is done with a line,
//! when a batch is stored, when progress is shown and what it reads are settled here.
use crate::entry;
use crate::entry::{EntryModel, LogEntry};
use crate::error::LogdiveError;
use crate::executor;
use crate::indexer;
use crate::indexer::{Indexer, InsertStats, Tally, BATCH_SIZE};
use crate::json;
use crate::parser;
use crate::parser::parse_line;
use crate::store::HashedModel;
use crate::table;
use crate::text;
use crate::text::is_blank;
use vstd::prelude::*;
use vstd::string::*;

verus! {

// ---------------------------------------------------------------------------
// The report
// ---------------------------------------------------------------------------

/// What became of the lines of a run.
#[derive(Debug, Clone, Copy, PartialEq, Eq, Structural)]
pub struct IngestReport {
    pub inserted: usize,
    pub deduplicated: usize,
    pub skipped_no_timestamp: usize,
    /// Lines that are no entries.
    pub malformed: usize,
    /// Lines that could not be read. They are counted and passed over, so that a corrupt tail
    /// does not discard a good head.
    pub io_errors: usize,
}

impl IngestReport {
    /// The lines that were counted.
    pub open spec fn total(self) -> nat {
        self.inserted as nat + self.deduplicated as nat + self.skipped_no_timestamp as nat
            + self.malformed as nat + self.io_errors as nat
    }

    /// The report with the outcome of a batch.
    pub open spec fn with_batch(self, tally: Tally) -> IngestReport {
        IngestReport {
            inserted: (self.inserted + tally.inserted) as usize,
            deduplicated: (self.deduplicated + tally.deduplicated) as usize,
            skipped_no_timestamp: (self.skipped_no_timestamp
                + tally.skipped_no_timestamp) as usize,
            ..self
        }
    }

    /// Count the outcome of a batch.
    pub fn fold_insert_stats(&mut self, s: InsertStats)
        requires
            old(self).total() + s@.total() <= usize::MAX,
        ensures
            *final(self) == old(self).with_batch(s@),
            final(self).total() == old(self).total() + s@.total(),
    {
        self.inserted = self.inserted + s.inserted;
        self.deduplicated = self.deduplicated + s.deduplicated;
        self.skipped_no_timestamp = self.skipped_no_timestamp + s.skipped_no_timestamp;
    }

    /// The lines that were counted.
    pub fn total_seen(&self) -> (r: usize)
        requires
            self.total() <= usize::MAX,
        ensures
            r == self.total(),
    {
        self.inserted + self.deduplicated + self.skipped_no_timestamp + self.malformed
            + self.io_errors
    }
}

impl Default for IngestReport {
    fn default() -> (r: IngestReport)
        ensures
            r == (IngestReport {
                inserted: 0,
                deduplicated: 0,
                skipped_no_timestamp: 0,
                malformed: 0,
                io_errors: 0,
            }),
    {
        IngestReport {
            inserted: 0,
            deduplicated: 0,
            skipped_no_timestamp: 0,
            malformed: 0,
            io_errors: 0,
        }
    }
}

// ---------------------------------------------------------------------------
// The run
// ---------------------------------------------------------------------------

/// An ingestion run under way.
pub struct Ingest {
    tag: Option<String>,
    batch: Vec<LogEntry>,
    report: IngestReport,
}

/// What an [`Ingest`] is.
#[verifier::ext_equal]
pub struct IngestModel {
    /// The tag for entries that carry none.
    pub tag: Option<Seq<char>>,
    /// The entries that are waiting to be stored.
    pub batch: Seq<EntryModel>,
    pub report: IngestReport,
}

impl IngestModel {
    /// The lines that are counted, or will be once the batch is stored.
    pub open spec fn seen(self) -> nat {
        self.report.total() + self.batch.len()
    }
}

impl View for Ingest {
    type V = IngestModel;

    closed spec fn view(&self) -> IngestModel {
        IngestModel {
            tag: json::text_view(self.tag),
            batch: executor::entry_models(self.batch@),
            report: self.report,
        }
    }
}

/// Whether a line counts: any does but a blank one. One that could not be read does.
pub open spec fn counts(line: Option<Seq<char>>) -> bool {
    match line {
        Some(line) => !text::blank(line),
        None => true,
    }
}

/// The run after a line that is the given entry, if it is one: the entry waits, with the tag of
/// the run where it has none; a line that is no entry is malformed, unless it is blank.
pub open spec fn after_entry(
    run: IngestModel,
    line: Seq<char>,
    parsed: Option<EntryModel>,
) -> IngestModel {
    match parsed {
        Some(e) => IngestModel { batch: run.batch.push(entry::tagged(e, run.tag)), ..run },
        None => if text::blank(line) {
            run
        } else {
            IngestModel {
                report: IngestReport {
                    malformed: (run.report.malformed + 1) as usize,
                    ..run.report
                },
                ..run
            }
        },
    }
}

/// The run after a line, or after one that could not be read.
pub open spec fn after_line(run: IngestModel, line: Option<Seq<char>>) -> IngestModel {
    match line {
        Some(line) => after_entry(run, line, parser::entry_of_line(line)),
        None => IngestModel {
            report: IngestReport { io_errors: (run.report.io_errors + 1) as usize, ..run.report },
            ..run
        },
    }
}

/// The run after its batch was stored with this outcome.
pub open spec fn after_batch(run: IngestModel, changes: Seq<nat>) -> IngestModel {
    IngestModel {
        batch: seq![],
        report: run.report.with_batch(indexer::tally(run.batch, changes)),
        ..run
    }
}

/// Whether storing the batch of `before` led to `after`, and the transactions that were begun on
/// the index before to those that were begun after.
pub open spec fn batch_stored(
    begun_before: Seq<int>,
    begun_after: Seq<int>,
    before: IngestModel,
    after: IngestModel,
) -> bool {
    exists|transactions: Seq<int>, changes: Seq<nat>| #[trigger]
        indexer::recorded(before.batch, transactions, changes) && begun_after == begun_before
            + transactions && after == after_batch(before, changes)
}

/// Of a batch that was stored, every entry with a timestamp has its row in a transaction that was
/// begun for it and committed. The transactions that were there stay.
pub proof fn stored_batches_are_committed(
    begun_before: Seq<int>,
    begun_after: Seq<int>,
    before: IngestModel,
    after: IngestModel,
    k: int,
)
    requires
        batch_stored(begun_before, begun_after, before, after),
        0 <= k < before.batch.len(),
        before.batch[k].timestamp is Some,
    ensures
        begun_before.len() <= begun_after.len(),
        begun_after.take(begun_before.len() as int) == begun_before,
        exists|c: int, n: nat|
            begun_before.len() <= c < begun_after.len() && #[trigger] indexer::committed_row(
                begun_after[c],
                indexer::row_of(before.batch[k]),
                n,
            ),
{
    let (transactions, changes) = choose|transactions: Seq<int>, changes: Seq<nat>| #[trigger]
        indexer::recorded(before.batch, transactions, changes) && begun_after == begun_before
            + transactions && after == after_batch(before, changes);
    assert(begun_after.take(begun_before.len() as int) == begun_before);
    indexer::recorded_entries_are_committed(before.batch, transactions, changes, k);
    let c = choose|c: int|
        0 <= c < transactions.len() && indexer::committed_row(
            #[trigger] transactions[c],
            indexer::row_of(before.batch[k]),
            changes[k],
        );
    assert(begun_after[begun_before.len() + c] == transactions[c]);
}

/// What finishing a run comes to: the batch is stored, if anything waits, or the error is why not.
pub open spec fn finished(
    connection: int,
    begun_before: Seq<int>,
    begun_after: Seq<int>,
    before: IngestModel,
    after: IngestModel,
    r: Result<(), LogdiveError>,
) -> bool {
    if before.batch.len() == 0 {
        r == Ok::<(), LogdiveError>(()) && after == before && begun_after == begun_before
    } else {
        match r {
            Ok(()) => batch_stored(begun_before, begun_after, before, after),
            Err(e) => after == before && indexer::insertion_failed(
                connection,
                before.batch,
                begun_before,
                begun_after,
                e,
            ),
        }
    }
}

/// When a run has finished nothing waits, every line that counts is in its report, and every entry
/// that waited and has a timestamp has its row in a transaction that was committed. A run that
/// could not finish is as it was.
pub proof fn finished_runs_leave_nothing(
    connection: int,
    begun_before: Seq<int>,
    begun_after: Seq<int>,
    before: IngestModel,
    after: IngestModel,
    r: Result<(), LogdiveError>,
    k: int,
)
    requires
        finished(connection, begun_before, begun_after, before, after, r),
        before.seen() <= usize::MAX,
    ensures
        r is Ok ==> after.batch.len() == 0 && after.report.total() == before.seen(),
        r is Ok && 0 <= k < before.batch.len() && before.batch[k].timestamp is Some ==> exists|
            c: int,
            n: nat,
        |
            begun_before.len() <= c < begun_after.len() && #[trigger] indexer::committed_row(
                begun_after[c],
                indexer::row_of(before.batch[k]),
                n,
            ),
        r is Err ==> after == before,
        before.batch.len() == 0 ==> r is Ok,
{
    if r is Ok && before.batch.len() > 0 {
        let (_, changes) = choose|transactions: Seq<int>, changes: Seq<nat>| #[trigger]
            indexer::recorded(before.batch, transactions, changes) && begun_after == begun_before
                + transactions && after == after_batch(before, changes);
        storing_keeps_the_count(before, changes);
        if 0 <= k < before.batch.len() && before.batch[k].timestamp is Some {
            stored_batches_are_committed(begun_before, begun_after, before, after, k);
        }
    }
}

/// What an optional line says.
pub open spec fn line_view(line: Option<&str>) -> Option<Seq<char>> {
    match line {
        Some(line) => Some(line@),
        None => None,
    }
}

/// What a line does to a run: an entry waits behind the others, with the tag of the run where it
/// has none; a line that is neither blank nor an entry is counted as malformed, and one that could not
/// be read as unread. Nothing else changes.
pub proof fn lines_do_one_thing(run: IngestModel, line: Seq<char>)
    requires
        run.seen() < usize::MAX,
    ensures
        after_line(run, Some(line)).tag == run.tag,
        match parser::entry_of_line(line) {
            Some(e) => after_line(run, Some(line)).report == run.report && after_line(
                run,
                Some(line),
            ).batch == run.batch.push(entry::tagged(e, run.tag)),
            None => after_line(run, Some(line)).batch == run.batch && after_line(
                run,
                Some(line),
            ).report.malformed == run.report.malformed + (if text::blank(line) {
                0int
            } else {
                1
            }),
        },
        after_line(run, Some(line)).report.inserted == run.report.inserted,
        after_line(run, Some(line)).report.deduplicated == run.report.deduplicated,
        after_line(run, Some(line)).report.skipped_no_timestamp == run.report.skipped_no_timestamp,
        after_line(run, Some(line)).report.io_errors == run.report.io_errors,
        after_line(run, None).report.io_errors == run.report.io_errors + 1,
        after_line(run, None).report.malformed == run.report.malformed,
        after_line(run, None).report.inserted == run.report.inserted,
        after_line(run, None).report.deduplicated == run.report.deduplicated,
        after_line(run, None).report.skipped_no_timestamp == run.report.skipped_no_timestamp,
        after_line(run, None).batch == run.batch,
        after_line(run, None).tag == run.tag,
{
}

/// Storing a batch adds its counts to the report, each to its own, and leaves nothing waiting.
pub proof fn batches_are_counted(run: IngestModel, changes: Seq<nat>)
    requires
        run.seen() <= usize::MAX,
        run.batch.len() == changes.len(),
    ensures
        ({
            let t = indexer::tally(run.batch, changes);
            let after = after_batch(run, changes);
            &&& after.report.inserted == run.report.inserted + t.inserted
            &&& after.report.deduplicated == run.report.deduplicated + t.deduplicated
            &&& after.report.skipped_no_timestamp == run.report.skipped_no_timestamp
                + t.skipped_no_timestamp
            &&& after.report.malformed == run.report.malformed
            &&& after.report.io_errors == run.report.io_errors
            &&& after.batch.len() == 0
            &&& after.tag == run.tag
        }),
{
    indexer::every_entry_is_counted(run.batch, changes);
}

/// Every line is seen once, unless it is blank, and then it is not seen at all.
pub proof fn every_line_is_seen_once(run: IngestModel, line: Option<Seq<char>>)
    requires
        run.seen() < usize::MAX,
    ensures
        after_line(run, line).seen() == run.seen() + (if counts(line) {
            1nat
        } else {
            0nat
        }),
{
}

/// Storing the batch loses no line and counts none twice.
pub proof fn storing_keeps_the_count(run: IngestModel, changes: Seq<nat>)
    requires
        run.seen() <= usize::MAX,
        run.batch.len() == changes.len(),
    ensures
        after_batch(run, changes).seen() == run.seen(),
        after_batch(run, changes).report.total() == run.seen(),
{
    indexer::every_entry_is_counted(run.batch, changes);
}

/// A run that has seen nothing.
pub open spec fn new_run(tag: Option<Seq<char>>) -> IngestModel {
    IngestModel {
        tag,
        batch: seq![],
        report: IngestReport {
            inserted: 0,
            deduplicated: 0,
            skipped_no_timestamp: 0,
            malformed: 0,
            io_errors: 0,
        },
    }
}

// ---------------------------------------------------------------------------
// Laws of runs
// ---------------------------------------------------------------------------

/// The entries that lines are, with the tag of a run where they have none.
pub open spec fn entries_of_lines(
    tag: Option<Seq<char>>,
    lines: Seq<Option<Seq<char>>>,
) -> Seq<EntryModel>
    decreases lines.len(),
{
    if lines.len() == 0 {
        seq![]
    } else {
        let front = entries_of_lines(tag, lines.drop_last());
        match lines.last() {
            Some(line) => match parser::entry_of_line(line) {
                Some(e) => front.push(entry::tagged(e, tag)),
                None => front,
            },
            None => front,
        }
    }
}

/// The number of lines that are neither blank nor entries.
pub open spec fn malformed_lines(lines: Seq<Option<Seq<char>>>) -> nat
    decreases lines.len(),
{
    if lines.len() == 0 {
        0
    } else {
        malformed_lines(lines.drop_last()) + match lines.last() {
            Some(line) => if parser::entry_of_line(line) is None && !text::blank(line) {
                1nat
            } else {
                0nat
            },
            None => 0nat,
        }
    }
}

/// The number of lines that could not be read.
pub open spec fn unread_lines(lines: Seq<Option<Seq<char>>>) -> nat
    decreases lines.len(),
{
    if lines.len() == 0 {
        0
    } else {
        unread_lines(lines.drop_last()) + (if lines.last() is None {
            1nat
        } else {
            0nat
        })
    }
}

/// Whether a run has come so far on these lines: of their entries, the first are stored in a table
/// that answered so, the others wait, and the report holds what became of the stored ones and of
/// the lines that are no entries.
pub open spec fn under_way(
    table: Seq<HashedModel>,
    tag: Option<Seq<char>>,
    lines: Seq<Option<Seq<char>>>,
    run: IngestModel,
    stored: Seq<EntryModel>,
    changes: Seq<nat>,
) -> bool {
    let t = indexer::tally(stored, changes);
    &&& run.tag == tag
    &&& stored + run.batch == entries_of_lines(tag, lines)
    &&& table::table_answers(table, stored, changes)
    &&& run.report.inserted == t.inserted
    &&& run.report.deduplicated == t.deduplicated
    &&& run.report.skipped_no_timestamp == t.skipped_no_timestamp
    &&& run.report.malformed == malformed_lines(lines)
    &&& run.report.io_errors == unread_lines(lines)
}

/// A run is under way on no lines when it begins.
pub proof fn runs_begin(table: Seq<HashedModel>, tag: Option<Seq<char>>)
    ensures
        under_way(table, tag, seq![], new_run(tag), seq![], seq![]),
{
}

/// A run that takes a line is under way on one more.
pub proof fn runs_go_on(
    table: Seq<HashedModel>,
    tag: Option<Seq<char>>,
    lines: Seq<Option<Seq<char>>>,
    run: IngestModel,
    stored: Seq<EntryModel>,
    changes: Seq<nat>,
    line: Option<Seq<char>>,
)
    requires
        under_way(table, tag, lines, run, stored, changes),
        run.seen() < usize::MAX,
    ensures
        under_way(table, tag, lines.push(line), after_line(run, line), stored, changes),
{
    assert(lines.push(line).drop_last() == lines);
    if let Some(text) = line {
        if let Some(e) = parser::entry_of_line(text) {
            let tagged = entry::tagged(e, tag);
            assert(stored + run.batch.push(tagged) == (stored + run.batch).push(tagged));
        }
    }
}

/// A run that stores its batch stays under way on its lines, with nothing left to wait.
pub proof fn runs_store(
    table: Seq<HashedModel>,
    tag: Option<Seq<char>>,
    lines: Seq<Option<Seq<char>>>,
    run: IngestModel,
    stored: Seq<EntryModel>,
    changes: Seq<nat>,
    batch_changes: Seq<nat>,
)
    requires
        under_way(table, tag, lines, run, stored, changes),
        run.seen() <= usize::MAX,
        table::table_answers(table::table_after(table, stored), run.batch, batch_changes),
    ensures
        under_way(
            table,
            tag,
            lines,
            after_batch(run, batch_changes),
            stored + run.batch,
            changes + batch_changes,
        ),
{
    indexer::every_entry_is_counted(run.batch, batch_changes);
    table::cuts_do_not_matter(table, stored, run.batch, changes, batch_changes);
    assert(stored + run.batch + Seq::<EntryModel>::empty() == stored + run.batch);
}

/// What a run reports at its end, with nothing left to wait: as inserted, the rows that the table
/// has more; as skipped, the entries without a timestamp; as malformed and as unread, those lines.
pub proof fn runs_report(
    table: Seq<HashedModel>,
    tag: Option<Seq<char>>,
    lines: Seq<Option<Seq<char>>>,
    run: IngestModel,
    stored: Seq<EntryModel>,
    changes: Seq<nat>,
)
    requires
        under_way(table, tag, lines, run, stored, changes),
        run.batch.len() == 0,
    ensures
        ({
            let entries = entries_of_lines(tag, lines);
            let timed = table::timestamped(entries);
            &&& stored == entries
            &&& run.report.inserted == table::table_after(table, entries).len() - table.len()
            &&& run.report.inserted + run.report.deduplicated == timed
            &&& run.report.skipped_no_timestamp == entries.len() - timed
            &&& run.report.malformed == malformed_lines(lines)
            &&& run.report.io_errors == unread_lines(lines)
        }),
{
    assert(stored + run.batch == stored);
    table::rows_grow_by_inserted(table, stored, changes);
    table::skipped_are_those_without_timestamp(stored, changes);
}

proof fn tags_do_not_matter(
    a: Option<Seq<char>>,
    b: Option<Seq<char>>,
    lines: Seq<Option<Seq<char>>>,
)
    ensures
        table::same_lines(entries_of_lines(a, lines), entries_of_lines(b, lines)),
        table::timestamped(entries_of_lines(a, lines)) == table::timestamped(
            entries_of_lines(b, lines),
        ),
    decreases lines.len(),
{
    if lines.len() > 0 {
        tags_do_not_matter(a, b, lines.drop_last());
        if let Some(text) = lines.last() {
            if let Some(e) = parser::entry_of_line(text) {
                let front_a = entries_of_lines(a, lines.drop_last());
                let front_b = entries_of_lines(b, lines.drop_last());
                assert(front_a.push(entry::tagged(e, a)).drop_last() == front_a);
                assert(front_b.push(entry::tagged(e, b)).drop_last() == front_b);
            }
        }
    }
}

/// Ingesting the same lines again adds nothing, whatever was stored since and whatever the tag:
/// the table stays as it is, every entry with a timestamp is a duplicate, and the lines that were
/// skipped, malformed or unread are so again.
pub proof fn ingesting_again_adds_nothing(
    table: Seq<HashedModel>,
    lines: Seq<Option<Seq<char>>>,
    first_tag: Option<Seq<char>>,
    first: IngestModel,
    first_stored: Seq<EntryModel>,
    first_changes: Seq<nat>,
    since: Seq<EntryModel>,
    second_tag: Option<Seq<char>>,
    second: IngestModel,
    second_stored: Seq<EntryModel>,
    second_changes: Seq<nat>,
)
    requires
        under_way(table, first_tag, lines, first, first_stored, first_changes),
        first.batch.len() == 0,
        under_way(
            table::table_after(table::table_after(table, first_stored), since),
            second_tag,
            lines,
            second,
            second_stored,
            second_changes,
        ),
        second.batch.len() == 0,
    ensures
        ({
            let now = table::table_after(table::table_after(table, first_stored), since);
            &&& table::table_after(now, second_stored) == now
            &&& second.report.inserted == 0
            &&& second.report.deduplicated == first.report.inserted + first.report.deduplicated
            &&& second.report.skipped_no_timestamp == first.report.skipped_no_timestamp
            &&& second.report.malformed == first.report.malformed
            &&& second.report.io_errors == first.report.io_errors
        }),
{
    let now = table::table_after(table::table_after(table, first_stored), since);
    runs_report(table, first_tag, lines, first, first_stored, first_changes);
    runs_report(now, second_tag, lines, second, second_stored, second_changes);
    tags_do_not_matter(first_tag, second_tag, lines);
    table::inserting_again_adds_nothing(
        table,
        first_stored,
        since,
        second_stored,
        second_changes,
    );
}

// ---------------------------------------------------------------------------
// What a run does
// ---------------------------------------------------------------------------

impl Ingest {
    /// A run that has seen nothing.
    pub fn new(tag: Option<String>) -> (r: Ingest)
        ensures
            r@ == new_run(json::text_view(tag)),
    {
        let batch: Vec<LogEntry> = Vec::new();
        Ingest { tag, batch, report: IngestReport::default() }
    }

    /// What became of the lines that were counted so far.
    pub fn report(&self) -> (r: IngestReport)
        ensures
            r == self@.report,
    {
        self.report
    }

    /// Take in a line that is the given entry, if it is one.
    pub fn take_entry(&mut self, line: &str, parsed: Option<LogEntry>)
        requires
            old(self)@.seen() < usize::MAX,
        ensures
            final(self)@ == after_entry(old(self)@, line@, parser::entry_view(parsed)),
    {
        match parsed {
            Some(entry) => {
                let tagged = entry.with_tag(self.tag.clone());
                self.batch.push(tagged);
            },
            None => {
                if !is_blank(line) {
                    self.report.malformed = self.report.malformed + 1;
                }
            },
        }
    }

    /// Take in a line, or one that could not be read.
    pub fn take_line(&mut self, line: Option<&str>)
        requires
            old(self)@.seen() < usize::MAX,
        ensures
            final(self)@ == after_line(old(self)@, line_view(line)),
    {
        match line {
            Some(line) => self.take_entry(line, parse_line(line)),
            None => {
                self.report.io_errors = self.report.io_errors + 1;
            },
        }
    }

    /// Store the batch. Where that fails, the run is as it was.
    pub fn flush(&mut self, indexer: &mut Indexer) -> (r: Result<(), LogdiveError>)
        requires
            old(self)@.seen() <= usize::MAX,
        ensures
            match r {
                Ok(()) => batch_stored(
                    old(indexer).history(),
                    final(indexer).history(),
                    old(self)@,
                    final(self)@,
                ),
                Err(e) => final(self)@ == old(self)@ && indexer::insertion_failed(
                    old(indexer).identity(),
                    old(self)@.batch,
                    old(indexer).history(),
                    final(indexer).history(),
                    e,
                ),
            },
            final(indexer).batches() == old(indexer).batches(),
            final(indexer).identity() == old(indexer).identity(),
    {
        match indexer.insert_batch(self.batch.as_slice()) {
            Ok(stats) => {
                self.report.fold_insert_stats(stats);
                self.batch.clear();
                assert(executor::entry_models(self.batch@) == Seq::<EntryModel>::empty());
                Ok(())
            },
            Err(e) => Err(e),
        }
    }

    /// Take in a line, and store the batch once it is full. The answer is whether it was.
    pub fn ingest_line(&mut self, line: Option<&str>, indexer: &mut Indexer) -> (r: Result<
        bool,
        LogdiveError,
    >)
        requires
            old(self)@.seen() < usize::MAX,
        ensures
            ({
                let taken = after_line(old(self)@, line_view(line));
                if taken.batch.len() < BATCH_SIZE {
                    r == Ok::<bool, LogdiveError>(false) && final(self)@ == taken && *final(indexer)
                        == *old(indexer)
                } else {
                    match r {
                        Ok(stored) => stored && batch_stored(
                            old(indexer).history(),
                            final(indexer).history(),
                            taken,
                            final(self)@,
                        ),
                        Err(e) => final(self)@ == taken && indexer::insertion_failed(
                            old(indexer).identity(),
                            taken.batch,
                            old(indexer).history(),
                            final(indexer).history(),
                            e,
                        ),
                    }
                }
            }),
            r is Ok ==> final(self)@.batch.len() < BATCH_SIZE,
            final(indexer).batches() == old(indexer).batches(),
            final(indexer).identity() == old(indexer).identity(),
            final(self)@.seen() == old(self)@.seen() + (if counts(line_view(line)) {
                1nat
            } else {
                0nat
            }),
    {
        proof {
            every_line_is_seen_once(self@, line_view(line));
        }
        self.take_line(line);
        let ghost taken = self@;
        if self.batch.len() < BATCH_SIZE {
            return Ok(false);
        }
        match self.flush(indexer) {
            Ok(()) => {
                proof {
                    let (_, changes) = choose|transactions: Seq<int>, changes: Seq<nat>|
                        #[trigger]
                        indexer::recorded(taken.batch, transactions, changes) && self@
                            == after_batch(taken, changes);
                    storing_keeps_the_count(taken, changes);
                }
                Ok(true)
            },
            Err(e) => Err(e),
        }
    }

    /// Store what is left. Afterwards every line that counts is in the report.
    pub fn finish(&mut self, indexer: &mut Indexer) -> (r: Result<(), LogdiveError>)
        requires
            old(self)@.seen() <= usize::MAX,
        ensures
            old(self)@.batch.len() == 0 ==> *final(indexer) == *old(indexer),
            finished(
                old(indexer).identity(),
                old(indexer).history(),
                final(indexer).history(),
                old(self)@,
                final(self)@,
                r,
            ),
            r is Ok ==> final(self)@.report.total() == old(self)@.seen(),
            final(indexer).batches() == old(indexer).batches(),
            final(indexer).identity() == old(indexer).identity(),
    {
        let ghost before = self@;
        if self.batch.len() == 0 {
            return Ok(());
        }
        match self.flush(indexer) {
            Ok(()) => {
                proof {
                    let (_, changes) = choose|transactions: Seq<int>, changes: Seq<nat>|
                        #[trigger]
                        indexer::recorded(before.batch, transactions, changes) && self@
                            == after_batch(before, changes);
                    storing_keeps_the_count(before, changes);
                }
                Ok(())
            },
            Err(e) => Err(e),
        }
    }
}

} // verus!
