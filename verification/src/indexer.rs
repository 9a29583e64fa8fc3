//! The index: entries in a SQLite database.
//!
//! A row is fingerprinted by the blake3 digest of its line, and the database refuses a second row
//! with the same digest. Entries are inserted in transactions of at most [`BATCH_SIZE`] each.
//!
//! The database demands a timestamp. An entry without one is skipped and counted: to give it the
//! time of its ingestion would mislead every query for a time range.
use crate::entry::{EntryModel, LogEntry};
use crate::error::LogdiveError;
use crate::executor;
use crate::json;
use crate::store;
use crate::store::{HashedModel, HashedRow, RowModel, StoredRow, WriteModel};
use crate::text;
use rusqlite::Connection;
use vstd::prelude::*;
use vstd::slice::slice_subrange;
use vstd::string::*;
use vstd::utf8::*;

verus! {

/// The number of entries in a transaction.
pub const BATCH_SIZE: usize = 1000;

// ---------------------------------------------------------------------------
// Where the index is
// ---------------------------------------------------------------------------

/// A name inside a directory. The empty path is the current directory.
pub open spec fn inside(dir: Seq<char>, name: Seq<char>) -> Seq<char> {
    if dir.len() == 0 {
        name
    } else if dir.last() == '/' {
        dir + name
    } else {
        dir + "/"@ + name
    }
}

/// The index in a home directory.
pub open spec fn default_db_path(home: Seq<char>) -> Seq<char> {
    inside(inside(home, ".logdive"@), "index.db"@)
}

/// The index is in a directory of its own in the home directory.
pub proof fn index_is_in_the_home_directory(home: Seq<char>)
    ensures
        home.len() > 0 && home.last() != '/' ==> default_db_path(home) == home
            + "/.logdive/index.db"@,
        home.len() > 0 && home.last() == '/' ==> default_db_path(home) == home
            + ".logdive/index.db"@,
        home.len() == 0 ==> default_db_path(home) == ".logdive/index.db"@,
{
    reveal_strlit("/");
    reveal_strlit(".logdive");
    reveal_strlit("index.db");
    reveal_strlit("/.logdive/index.db");
    reveal_strlit(".logdive/index.db");
    let dir = inside(home, ".logdive"@);
    assert(".logdive"@.len() == 8 && ".logdive"@[7] == 'e');
    assert(dir.last() == 'e');
    assert(".logdive"@ + "/"@ + "index.db"@ == ".logdive/index.db"@);
    assert("/"@ + ".logdive"@ + "/"@ + "index.db"@ == "/.logdive/index.db"@);
    if home.len() > 0 && home.last() != '/' {
        assert(home + "/"@ + ".logdive"@ + "/"@ + "index.db"@ == home + ("/"@ + ".logdive"@ + "/"@
            + "index.db"@));
    } else if home.len() > 0 {
        assert(home + ".logdive"@ + "/"@ + "index.db"@ == home + (".logdive"@ + "/"@
            + "index.db"@));
    }
}

fn join_path(dir: &str, name: &str) -> (r: String)
    ensures
        r@ == inside(dir@, name@),
{
    let chars = text::chars_of(dir);
    let mut path = dir.to_owned();
    if chars.len() > 0 && chars[chars.len() - 1] != '/' {
        path.append("/");
    }
    path.append(name);
    path
}

/// The path of the index database, given a path of the user's and the home directory.
pub open spec fn index_path(
    override_path: Option<Seq<char>>,
    home: Option<Seq<char>>,
) -> Seq<char> {
    match override_path {
        Some(path) => path,
        None => default_db_path(
            match home {
                Some(dir) => dir,
                None => "."@,
            },
        ),
    }
}

/// A path that is given is taken as it is, wherever home is. Without one the index is in the home
/// directory, and without that in the current one.
pub proof fn given_paths_are_taken(path: Seq<char>, home: Option<Seq<char>>, dir: Seq<char>)
    ensures
        index_path(Some(path), home) == path,
        dir.len() > 0 && dir.last() != '/' ==> index_path(None, Some(dir)) == dir
            + "/.logdive/index.db"@,
        index_path(None, None) == "./.logdive/index.db"@,
{
    index_is_in_the_home_directory(dir);
    index_is_in_the_home_directory("."@);
    reveal_strlit(".");
    reveal_strlit("/.logdive/index.db");
    reveal_strlit("./.logdive/index.db");
    assert("."@.len() == 1 && "."@[0] == '.');
    assert("."@ + "/.logdive/index.db"@ == "./.logdive/index.db"@);
}

/// The path of the index database: the one that is given, or else `.logdive/index.db` in the home
/// directory. Where there is no home directory, it is that in the current directory.
pub fn db_path(override_path: Option<&str>, home: Option<&str>) -> (r: String)
    ensures
        r@ == index_path(
            match override_path {
                Some(path) => Some(path@),
                None => None,
            },
            match home {
                Some(dir) => Some(dir@),
                None => None,
            },
        ),
{
    if let Some(path) = override_path {
        return path.to_owned();
    }
    let dir = match home {
        Some(dir) => dir,
        None => ".",
    };
    join_path(join_path(dir, ".logdive").as_str(), "index.db")
}

/// The directory to create before an index is opened, given the directory that its path names: a
/// path without one, or with an empty one, is in a directory that exists.
pub fn directory_to_create(parent: Option<&str>) -> (r: Option<String>)
    ensures
        json::text_view(r) == match parent {
            Some(dir) => if dir@.len() == 0 {
                None
            } else {
                Some(dir@)
            },
            None => None,
        },
{
    match parent {
        Some(dir) => if dir.unicode_len() == 0 {
            None
        } else {
            Some(dir.to_owned())
        },
        None => None,
    }
}

/// What is reported where the directory of an index cannot be created.
pub fn directory_error(dir: &str, cause: &str) -> (r: String)
    ensures
        r@ == "failed to create directory "@ + dir@ + ": "@ + cause@,
{
    let mut message = "failed to create directory ".to_owned();
    message.append(dir);
    message.append(": ");
    message.append(cause);
    message
}

// ---------------------------------------------------------------------------
// Counts
// ---------------------------------------------------------------------------

/// What became of the entries of a batch.
#[derive(Debug, Clone, Copy, PartialEq, Eq, Structural)]
pub struct InsertStats {
    /// Rows that are new in the index.
    pub inserted: usize,
    /// Rows that the index held already.
    pub deduplicated: usize,
    /// Entries without a timestamp.
    pub skipped_no_timestamp: usize,
}

/// Counts of entries, without a bound.
#[verifier::ext_equal]
pub struct Tally {
    pub inserted: nat,
    pub deduplicated: nat,
    pub skipped_no_timestamp: nat,
}

impl View for InsertStats {
    type V = Tally;

    open spec fn view(&self) -> Tally {
        Tally {
            inserted: self.inserted as nat,
            deduplicated: self.deduplicated as nat,
            skipped_no_timestamp: self.skipped_no_timestamp as nat,
        }
    }
}

impl Tally {
    /// No entries.
    pub open spec fn zero() -> Tally {
        Tally { inserted: 0, deduplicated: 0, skipped_no_timestamp: 0 }
    }

    /// Both together.
    pub open spec fn plus(self, other: Tally) -> Tally {
        Tally {
            inserted: self.inserted + other.inserted,
            deduplicated: self.deduplicated + other.deduplicated,
            skipped_no_timestamp: self.skipped_no_timestamp + other.skipped_no_timestamp,
        }
    }

    /// The entries that were counted.
    pub open spec fn total(self) -> nat {
        self.inserted + self.deduplicated + self.skipped_no_timestamp
    }
}

impl Default for InsertStats {
    fn default() -> (r: InsertStats)
        ensures
            r@ == Tally::zero(),
    {
        InsertStats { inserted: 0, deduplicated: 0, skipped_no_timestamp: 0 }
    }
}

impl InsertStats {
    /// Count another batch as well.
    pub fn extend(&mut self, other: InsertStats)
        requires
            old(self).inserted + other.inserted <= usize::MAX,
            old(self).deduplicated + other.deduplicated <= usize::MAX,
            old(self).skipped_no_timestamp + other.skipped_no_timestamp <= usize::MAX,
        ensures
            final(self)@ == old(self)@.plus(other@),
    {
        self.inserted = self.inserted + other.inserted;
        self.deduplicated = self.deduplicated + other.deduplicated;
        self.skipped_no_timestamp = self.skipped_no_timestamp + other.skipped_no_timestamp;
    }

    /// Count one entry: the number of rows that storing it changed, or nothing where it had no
    /// timestamp and was not stored.
    pub fn count(&mut self, changes: Option<usize>)
        requires
            old(self)@.total() < usize::MAX,
        ensures
            final(self)@ == old(self)@.plus(
                fate_of(
                    match changes {
                        Some(n) => Some(n as nat),
                        None => None,
                    },
                ),
            ),
    {
        match changes {
            None => {
                self.skipped_no_timestamp = self.skipped_no_timestamp + 1;
            },
            Some(n) => {
                if n == 0 {
                    self.deduplicated = self.deduplicated + 1;
                } else {
                    self.inserted = self.inserted + 1;
                }
            },
        }
    }
}

/// What becomes of one entry: without a timestamp it is skipped, and otherwise the number of rows
/// that storing it changed decides.
pub open spec fn fate(entry: EntryModel, changes: nat) -> Tally {
    if entry.timestamp is None {
        fate_of(None)
    } else {
        fate_of(Some(changes))
    }
}

/// What becomes of an entry that was stored with so many changed rows, or not at all.
pub open spec fn fate_of(changes: Option<nat>) -> Tally {
    match changes {
        None => Tally { skipped_no_timestamp: 1, ..Tally::zero() },
        Some(n) => if n == 0 {
            Tally { deduplicated: 1, ..Tally::zero() }
        } else {
            Tally { inserted: 1, ..Tally::zero() }
        },
    }
}

/// What becomes of entries, given for each the number of rows that storing it changed.
pub open spec fn tally(entries: Seq<EntryModel>, changes: Seq<nat>) -> Tally
    decreases entries.len(),
{
    if entries.len() == 0 {
        Tally::zero()
    } else {
        tally(entries.drop_last(), changes.drop_last()).plus(fate(entries.last(), changes.last()))
    }
}

// ---------------------------------------------------------------------------
// Rows
// ---------------------------------------------------------------------------

/// The blake3 digest of some bytes, in hexadecimal.
pub uninterp spec fn blake3_hex(bytes: Seq<u8>) -> Seq<char>;

/// `0` to `9` and `a` to `f`.
pub open spec fn hex_digit(c: char) -> bool {
    text::digit(c) || 'a' <= c <= 'f'
}

/// `blake3::hash` and `blake3::Hash::to_hex`: the digest is [`blake3_hex`], 64 hexadecimal digits
/// in lower case.
#[verifier::external_body]
fn digest(bytes: &[u8]) -> (r: String)
    ensures
        r@ == blake3_hex(bytes@),
        r@.len() == 64,
        forall|i: int| 0 <= i < r@.len() ==> hex_digit(#[trigger] r@[i]),
{
    blake3::hash(bytes).to_hex().to_string()
}

/// The row of an entry: its fields, its other members as JSON, its line, and the digest of that.
pub open spec fn row_of(entry: EntryModel) -> HashedModel {
    HashedModel {
        row: RowModel {
            timestamp: entry.timestamp,
            level: entry.level,
            message: entry.message,
            tag: entry.tag,
            fields: json::members_printed(entry.fields),
            raw: entry.raw,
        },
        raw_hash: fingerprint(entry),
    }
}

/// What tells a row from another: the digest of its line.
pub open spec fn fingerprint(entry: EntryModel) -> Seq<char> {
    blake3_hex(encode_utf8(entry.raw))
}

/// The row of an entry.
///
/// Reading the row gives the entry back, where the JSON of its members reads back unchanged.
pub fn row_for(entry: &LogEntry) -> (r: HashedRow)
    ensures
        r@ == row_of(entry@),
        json::members_read_back(entry@.fields, json::MAX_NESTING as nat)
            ==> executor::entry_of_row(r@.row) == Some(entry@),
        r@.raw_hash.len() == 64,
        forall|i: int| 0 <= i < r@.raw_hash.len() ==> hex_digit(#[trigger] r@.raw_hash[i]),
{
    let row = StoredRow {
        timestamp: entry.timestamp.clone(),
        level: entry.level.clone(),
        message: entry.message.clone(),
        tag: entry.tag.clone(),
        fields: json::print_members(&entry.fields),
        raw: entry.raw.clone(),
    };
    HashedRow { row, raw_hash: digest(entry.raw.as_str().as_bytes()) }
}

/// A row holds what its entry has: each known field in its column, the other members as JSON, and
/// the line. Its digest is that of the line alone, whatever else the entry has.
pub proof fn rows_hold_their_entries(entry: EntryModel, other: EntryModel)
    ensures
        row_of(entry).row.timestamp == entry.timestamp,
        row_of(entry).row.level == entry.level,
        row_of(entry).row.message == entry.message,
        row_of(entry).row.tag == entry.tag,
        row_of(entry).row.fields == json::members_printed(entry.fields),
        row_of(entry).row.raw == entry.raw,
        row_of(entry).raw_hash == blake3_hex(encode_utf8(entry.raw)),
        entry.raw == other.raw ==> fingerprint(entry) == fingerprint(other),
{
}

/// An answer of the database that holds the rows of these entries, in their order.
pub open spec fn answer_with(entries: Seq<EntryModel>) -> Seq<Result<RowModel, rusqlite::Error>> {
    entries.map_values(|e: EntryModel| Ok::<RowModel, rusqlite::Error>(row_of(e).row))
}

/// A query whose answer holds the rows of some entries gives these entries back, in the order of
/// the answer, where the JSON of their members reads back.
pub proof fn stored_entries_are_given_back(entries: Seq<EntryModel>)
    requires
        forall|i: int|
            0 <= i < entries.len() ==> json::members_read(
                json::members_printed((#[trigger] entries[i]).fields),
            ) == Some(entries[i].fields),
    ensures
        executor::entries_of(answer_with(entries)) == Ok::<_, executor::RowFault>(entries),
    decreases entries.len(),
{
    if entries.len() == 0 {
        assert(entries == Seq::<EntryModel>::empty());
    } else {
        let front = entries.drop_last();
        stored_entries_are_given_back(front);
        assert(answer_with(entries).drop_last() == answer_with(front));
        assert(front.push(entries.last()) == entries);
    }
}

// ---------------------------------------------------------------------------
// Laws of counting
// ---------------------------------------------------------------------------

/// Every entry is counted once.
pub proof fn every_entry_is_counted(entries: Seq<EntryModel>, changes: Seq<nat>)
    requires
        entries.len() == changes.len(),
    ensures
        tally(entries, changes).total() == entries.len(),
    decreases entries.len(),
{
    if entries.len() > 0 {
        every_entry_is_counted(entries.drop_last(), changes.drop_last());
    }
}

/// One entry is skipped where it has no timestamp, and otherwise a duplicate where storing it
/// changed no row and inserted where it changed any.
pub proof fn one_entry_is_counted(entry: EntryModel, changes: nat)
    ensures
        ({
            let t = tally(seq![entry], seq![changes]);
            &&& t.skipped_no_timestamp == (if entry.timestamp is None {
                1nat
            } else {
                0nat
            })
            &&& t.deduplicated == (if entry.timestamp is Some && changes == 0 {
                1nat
            } else {
                0nat
            })
            &&& t.inserted == (if entry.timestamp is Some && changes > 0 {
                1nat
            } else {
                0nat
            })
        }),
{
    assert(seq![entry].drop_last() == Seq::<EntryModel>::empty());
    assert(tally(seq![entry].drop_last(), seq![changes].drop_last()) == Tally::zero());
}

/// Counting two batches after each other is counting both at once.
pub proof fn batches_add_up(
    a: Seq<EntryModel>,
    b: Seq<EntryModel>,
    changes_a: Seq<nat>,
    changes_b: Seq<nat>,
)
    requires
        a.len() == changes_a.len(),
        b.len() == changes_b.len(),
    ensures
        tally(a + b, changes_a + changes_b) == tally(a, changes_a).plus(tally(b, changes_b)),
    decreases b.len(),
{
    if b.len() > 0 {
        assert((a + b).drop_last() == a + b.drop_last());
        assert((changes_a + changes_b).drop_last() == changes_a + changes_b.drop_last());
        batches_add_up(a, b.drop_last(), changes_a, changes_b.drop_last());
    }
}

// ---------------------------------------------------------------------------
// The index
// ---------------------------------------------------------------------------

/// The statements that make the table and its indexes, where they are not there yet.
pub open spec fn schema() -> Seq<char> {
    "CREATE TABLE IF NOT EXISTS log_entries (
    id          INTEGER PRIMARY KEY AUTOINCREMENT,
    timestamp   TEXT NOT NULL,
    level       TEXT,
    message     TEXT,
    tag         TEXT,
    fields      TEXT,
    raw         TEXT NOT NULL,
    raw_hash    TEXT NOT NULL UNIQUE,
    ingested_at TEXT NOT NULL DEFAULT (datetime('now'))
);
CREATE INDEX IF NOT EXISTS idx_level     ON log_entries(level);
CREATE INDEX IF NOT EXISTS idx_tag       ON log_entries(tag);
CREATE INDEX IF NOT EXISTS idx_timestamp ON log_entries(timestamp);"@
}

/// The statement that stores a row, unless there is one with its digest.
pub open spec fn insertion() -> Seq<char> {
    "INSERT OR IGNORE INTO log_entries (timestamp, level, message, tag, fields, raw, raw_hash) VALUES (?1, ?2, ?3, ?4, ?5, ?6, ?7)"@
}

/// The statement that counts the entries and finds the first and the last timestamp.
pub open spec fn overview() -> Seq<char> {
    "SELECT COUNT(*), MIN(timestamp), MAX(timestamp) FROM log_entries"@
}

/// The statement that lists the tags: untagged first, and then in ascending order.
pub open spec fn tag_list() -> Seq<char> {
    "SELECT DISTINCT tag FROM log_entries ORDER BY tag"@
}

/// A row is stored column by column and passed over where there is one with its digest; the entries
/// that are counted are all of them, between the least and the greatest timestamp; and every tag is
/// listed once.
pub proof fn statements_say_what_is_wanted()
    ensures
        insertion() == "INSERT OR IGNORE INTO log_entries "@
            + "(timestamp, level, message, tag, fields, raw, raw_hash) "@
            + "VALUES (?1, ?2, ?3, ?4, ?5, ?6, ?7)"@,
        overview() == "SELECT COUNT(*), "@ + "MIN(timestamp), "@ + "MAX(timestamp) "@
            + "FROM log_entries"@,
        tag_list() == "SELECT DISTINCT tag "@ + "FROM log_entries "@ + "ORDER BY tag"@,
{
    reveal_strlit(
        "INSERT OR IGNORE INTO log_entries (timestamp, level, message, tag, fields, raw, raw_hash) VALUES (?1, ?2, ?3, ?4, ?5, ?6, ?7)",
    );
    reveal_strlit("INSERT OR IGNORE INTO log_entries ");
    reveal_strlit("(timestamp, level, message, tag, fields, raw, raw_hash) ");
    reveal_strlit("VALUES (?1, ?2, ?3, ?4, ?5, ?6, ?7)");
    reveal_strlit("SELECT COUNT(*), MIN(timestamp), MAX(timestamp) FROM log_entries");
    reveal_strlit("SELECT COUNT(*), ");
    reveal_strlit("MIN(timestamp), ");
    reveal_strlit("MAX(timestamp) ");
    reveal_strlit("FROM log_entries");
    reveal_strlit("SELECT DISTINCT tag FROM log_entries ORDER BY tag");
    reveal_strlit("SELECT DISTINCT tag ");
    reveal_strlit("FROM log_entries ");
    reveal_strlit("ORDER BY tag");
    assert(insertion() =~= "INSERT OR IGNORE INTO log_entries "@
        + "(timestamp, level, message, tag, fields, raw, raw_hash) "@
        + "VALUES (?1, ?2, ?3, ?4, ?5, ?6, ?7)"@);
    assert(overview() =~= "SELECT COUNT(*), "@ + "MIN(timestamp), "@ + "MAX(timestamp) "@
        + "FROM log_entries"@);
    assert(tag_list() =~= "SELECT DISTINCT tag "@ + "FROM log_entries "@ + "ORDER BY tag"@);
}

/// What is written for entries, given for each the number of rows that this changed: a row for
/// each entry with a timestamp, in order, and nothing for the others.
pub open spec fn writes_of(entries: Seq<EntryModel>, changes: Seq<nat>) -> Seq<WriteModel>
    decreases entries.len(),
{
    if entries.len() == 0 {
        seq![]
    } else {
        let front = writes_of(entries.drop_last(), changes.drop_last());
        if entries.last().timestamp is None {
            front
        } else {
            front.push(
                WriteModel {
                    sql: insertion(),
                    row: row_of(entries.last()),
                    changes: changes.last(),
                },
            )
        }
    }
}

/// For one entry its row is written, once, unless it has no timestamp.
pub proof fn one_entry_is_written(entry: EntryModel, changes: nat)
    ensures
        entry.timestamp is None ==> writes_of(seq![entry], seq![changes]).len() == 0,
        entry.timestamp is Some ==> {
            let writes = writes_of(seq![entry], seq![changes]);
            writes.len() == 1 && writes[0].row == row_of(entry) && writes[0].changes == changes
                && writes[0].sql == insertion()
        },
{
    assert(seq![entry].drop_last() == Seq::<EntryModel>::empty());
    assert(writes_of(seq![entry].drop_last(), seq![changes].drop_last())
        == Seq::<WriteModel>::empty());
}

/// What is written for two batches after each other is what is written for both at once.
pub proof fn writes_add_up(
    a: Seq<EntryModel>,
    b: Seq<EntryModel>,
    changes_a: Seq<nat>,
    changes_b: Seq<nat>,
)
    requires
        a.len() == changes_a.len(),
        b.len() == changes_b.len(),
    ensures
        writes_of(a + b, changes_a + changes_b) == writes_of(a, changes_a) + writes_of(
            b,
            changes_b,
        ),
    decreases b.len(),
{
    if b.len() == 0 {
        assert(a + b == a);
        assert(changes_a + changes_b == changes_a);
    } else {
        assert((a + b).drop_last() == a + b.drop_last());
        assert((changes_a + changes_b).drop_last() == changes_a + changes_b.drop_last());
        writes_add_up(a, b.drop_last(), changes_a, changes_b.drop_last());
    }
}

/// Where the transaction with this number ends: [`BATCH_SIZE`] entries on from where it begins, or
/// where there are no more.
pub open spec fn chunk_end(c: int, len: int) -> int {
    if (c + 1) * BATCH_SIZE < len {
        (c + 1) * BATCH_SIZE
    } else {
        len
    }
}

/// Transactions have no more than a thousand entries, and each begins where the one before ends, so
/// that no entry is left out and none is in two.
pub proof fn transactions_follow_each_other(c: int, len: int)
    requires
        0 <= c,
        c * 1000 < len,
    ensures
        c * 1000 < chunk_end(c, len) <= c * 1000 + 1000,
        chunk_end(c, len) == (c + 1) * 1000 || chunk_end(c, len) == len,
        BATCH_SIZE == 1000,
{
}

/// Whether the insertion was prepared in a transaction, which was committed with the rows of the
/// entries of its number, and nothing else.
pub open spec fn chunk_recorded(
    entries: Seq<EntryModel>,
    changes: Seq<nat>,
    c: int,
    transaction: int,
) -> bool {
    let start = c * BATCH_SIZE;
    let end = chunk_end(c, entries.len() as int);
    &&& store::prepared(transaction, insertion())
    &&& store::committed_with(
        transaction,
        writes_of(entries.subrange(start, end), changes.subrange(start, end)),
    )
}

/// Whether entries were written in these transactions, one for each [`BATCH_SIZE`] of them and no
/// more, and writing each entry changed so many rows.
pub open spec fn recorded(
    entries: Seq<EntryModel>,
    transactions: Seq<int>,
    changes: Seq<nat>,
) -> bool {
    &&& entries.len() == changes.len()
    &&& transactions.len() == (entries.len() + BATCH_SIZE - 1) / BATCH_SIZE as int
    &&& forall|c: int|
        0 <= c < transactions.len() ==> chunk_recorded(
            entries,
            changes,
            c,
            #[trigger] transactions[c],
        )
}

proof fn each_entry_has_its_write(entries: Seq<EntryModel>, changes: Seq<nat>, k: int)
    requires
        entries.len() == changes.len(),
        0 <= k < entries.len(),
        entries[k].timestamp is Some,
    ensures
        writes_of(entries, changes).contains(
            WriteModel { sql: insertion(), row: row_of(entries[k]), changes: changes[k] },
        ),
    decreases entries.len(),
{
    let write = WriteModel { sql: insertion(), row: row_of(entries[k]), changes: changes[k] };
    let all = writes_of(entries, changes);
    if k == entries.len() - 1 {
        assert(all[all.len() - 1] == write);
    } else {
        let front = writes_of(entries.drop_last(), changes.drop_last());
        each_entry_has_its_write(entries.drop_last(), changes.drop_last(), k);
        let i = front.index_of(write);
        assert(all[i] == front[i]);
    }
}

proof fn each_write_has_its_entry(entries: Seq<EntryModel>, changes: Seq<nat>, i: int)
    requires
        entries.len() == changes.len(),
        0 <= i < writes_of(entries, changes).len(),
    ensures
        exists|k: int|
            0 <= k < entries.len() && (#[trigger] entries[k]).timestamp is Some && writes_of(
                entries,
                changes,
            )[i].row == row_of(entries[k]),
    decreases entries.len(),
{
    let all = writes_of(entries, changes);
    let front = writes_of(entries.drop_last(), changes.drop_last());
    if i < front.len() {
        each_write_has_its_entry(entries.drop_last(), changes.drop_last(), i);
        assert(all[i] == front[i]);
        let k = choose|k: int|
            0 <= k < entries.drop_last().len() && (#[trigger] entries.drop_last()[k]).timestamp is Some
                && front[i].row == row_of(entries.drop_last()[k]);
        assert(entries[k] == entries.drop_last()[k]);
    } else {
        assert(entries[entries.len() - 1] == entries.last());
    }
}

/// Whether a transaction was committed in which this row was written, and so many rows changed.
pub open spec fn committed_row(transaction: int, row: HashedModel, changes: nat) -> bool {
    exists|writes: Seq<WriteModel>| #[trigger]
        store::committed_with(transaction, writes) && writes.contains(
            WriteModel { sql: insertion(), row, changes },
        )
}

/// Of the entries that were recorded, every one with a timestamp has its row in one of the
/// transactions, which was committed.
pub proof fn recorded_entries_are_committed(
    entries: Seq<EntryModel>,
    transactions: Seq<int>,
    changes: Seq<nat>,
    k: int,
)
    requires
        recorded(entries, transactions, changes),
        0 <= k < entries.len(),
        entries[k].timestamp is Some,
    ensures
        exists|c: int|
            0 <= c < transactions.len() && committed_row(
                #[trigger] transactions[c],
                row_of(entries[k]),
                changes[k],
            ),
{
    let c = k / 1000;
    assert(0 <= c < transactions.len());
    assert(chunk_recorded(entries, changes, c, transactions[c]));
    let start = c * BATCH_SIZE;
    let end = chunk_end(c, entries.len() as int);
    let part = entries.subrange(start, end);
    let part_changes = changes.subrange(start, end);
    assert(part[k - start] == entries[k] && part_changes[k - start] == changes[k]);
    each_entry_has_its_write(part, part_changes, k - start);
    assert(committed_row(transactions[c], row_of(entries[k]), changes[k]));
}

/// What is written in a transaction of recorded entries is rows of theirs, and nothing else.
pub proof fn nothing_else_is_written(
    entries: Seq<EntryModel>,
    transactions: Seq<int>,
    changes: Seq<nat>,
    c: int,
) -> (writes: Seq<WriteModel>)
    requires
        recorded(entries, transactions, changes),
        0 <= c < transactions.len(),
    ensures
        store::committed_with(transactions[c], writes),
        forall|i: int|
            0 <= i < writes.len() ==> exists|k: int|
                0 <= k < entries.len() && entries[k].timestamp is Some && (
                #[trigger] writes[i]).row == row_of(#[trigger] entries[k]),
{
    assert(chunk_recorded(entries, changes, c, transactions[c]));
    let start = c * BATCH_SIZE;
    let end = chunk_end(c, entries.len() as int);
    assert(start < entries.len());
    let part = entries.subrange(start, end);
    let part_changes = changes.subrange(start, end);
    let writes = writes_of(part, part_changes);
    assert forall|i: int| 0 <= i < writes.len() implies exists|k: int|
        0 <= k < entries.len() && entries[k].timestamp is Some && (#[trigger] writes[i]).row
            == row_of(#[trigger] entries[k]) by {
        each_write_has_its_entry(part, part_changes, i);
        let k = choose|k: int|
            0 <= k < part.len() && (#[trigger] part[k]).timestamp is Some && writes[i].row
                == row_of(part[k]);
        assert(entries[start + k] == part[k]);
    }
    writes
}

/// Whether a transaction for entries was refused the row of the entry at `k`, for this reason,
/// after the rows of those before it were written.
pub open spec fn row_refused(
    entries: Seq<EntryModel>,
    transaction: int,
    k: int,
    changes: Seq<nat>,
    e: rusqlite::Error,
) -> bool {
    &&& 0 <= k < entries.len()
    &&& changes.len() == k
    &&& entries[k].timestamp is Some
    &&& store::write_refused(
        transaction,
        writes_of(entries.take(k), changes),
        insertion(),
        row_of(entries[k]),
        e,
    )
}

/// Whether a transaction for entries could not be committed, for this reason, after the rows of all
/// of them were written.
pub open spec fn whole_refused(
    entries: Seq<EntryModel>,
    transaction: int,
    changes: Seq<nat>,
    e: rusqlite::Error,
) -> bool {
    &&& changes.len() == entries.len()
    &&& store::commit_refused(transaction, writes_of(entries, changes), e)
}

/// Whether storing the entries of one transaction failed for this reason, after these transactions
/// were begun for it: none, because that was refused; or one, which was given up because the
/// statement could not be prepared, a row could not be written, or it could not be committed.
pub open spec fn chunk_refused(
    connection: int,
    entries: Seq<EntryModel>,
    failed: Seq<int>,
    e: rusqlite::Error,
) -> bool {
    if failed.len() == 0 {
        store::begin_refused(connection, e)
    } else {
        &&& failed.len() == 1
        &&& store::discarded(failed[0])
        &&& {
            ||| store::preparation_refused(failed[0], insertion(), e)
            ||| store::prepared(failed[0], insertion()) && exists|k: int, changes: Seq<nat>|
                #[trigger] row_refused(entries, failed[0], k, changes, e)
            ||| store::prepared(failed[0], insertion()) && exists|changes: Seq<nat>| #[trigger]
                whole_refused(entries, failed[0], changes, e)
        }
    }
}

/// Whether storing the entries of one transaction failed with this error, and led from the
/// transactions that were begun before to those that were begun after.
pub open spec fn chunk_failed(
    connection: int,
    entries: Seq<EntryModel>,
    before: Seq<int>,
    after: Seq<int>,
    e: LogdiveError,
) -> bool {
    e is Sqlite && exists|failed: Seq<int>| #[trigger]
        chunk_refused(connection, entries, failed, e->Sqlite_0) && after == before + failed
}

proof fn refusal_is_failure(
    connection: int,
    entries: Seq<EntryModel>,
    begun: Seq<int>,
    failed: Seq<int>,
    e: rusqlite::Error,
)
    requires
        chunk_refused(connection, entries, failed, e),
    ensures
        chunk_failed(connection, entries, begun, begun + failed, LogdiveError::Sqlite(e)),
{
    assert(chunk_refused(connection, entries, failed, LogdiveError::Sqlite(e)->Sqlite_0));
}

/// Whether entries were written as far as some whole transactions go, and no further: the
/// transactions that were begun are these, and those of the next one, which failed for this reason.
pub open spec fn recorded_in_part(
    connection: int,
    entries: Seq<EntryModel>,
    transactions: Seq<int>,
    changes: Seq<nat>,
    failed: Seq<int>,
    e: rusqlite::Error,
) -> bool {
    let done = transactions.len() * BATCH_SIZE;
    let next = entries.subrange(
        done,
        chunk_end(transactions.len() as int, entries.len() as int),
    );
    &&& done < entries.len()
    &&& recorded(entries.take(done), transactions, changes)
    &&& chunk_refused(connection, next, failed, e)
}

/// Whether inserting entries failed for this reason: they were written as far as some whole
/// transactions go, and the next one failed.
pub open spec fn insertion_failed(
    connection: int,
    entries: Seq<EntryModel>,
    before: Seq<int>,
    after: Seq<int>,
    e: LogdiveError,
) -> bool {
    e is Sqlite && exists|
        transactions: Seq<int>,
        changes: Seq<nat>,
        failed: Seq<int>,
    | #[trigger]
        recorded_in_part(connection, entries, transactions, changes, failed, e->Sqlite_0)
            && after == before + transactions + failed
}

/// Whether an index could not be opened because its schema was refused, for this reason.
pub open spec fn schema_refused(connection: int, e: LogdiveError) -> bool {
    e matches LogdiveError::Sqlite(cause) && store::batch_refused(connection, schema(), cause)
}

/// Entries that fill whole transactions, with those of one more, are recorded in one transaction
/// more.
proof fn one_more_chunk(
    front: Seq<EntryModel>,
    part: Seq<EntryModel>,
    transactions: Seq<int>,
    changes: Seq<nat>,
    t: int,
    more: Seq<nat>,
)
    requires
        recorded(front, transactions, changes),
        front.len() == transactions.len() * BATCH_SIZE,
        0 < part.len() <= BATCH_SIZE,
        part.len() == more.len(),
        store::prepared(t, insertion()),
        store::committed_with(t, writes_of(part, more)),
    ensures
        recorded(front + part, transactions.push(t), changes + more),
{
    let all = front + part;
    let grown = transactions.push(t);
    assert forall|c: int| 0 <= c < grown.len() implies chunk_recorded(
        all,
        changes + more,
        c,
        #[trigger] grown[c],
    ) by {
        let start = c * BATCH_SIZE;
        let end = chunk_end(c, all.len() as int);
        if c < transactions.len() {
            assert(chunk_recorded(front, changes, c, transactions[c]));
            assert(end == chunk_end(c, front.len() as int));
            assert(all.subrange(start, end) == front.subrange(start, end));
            assert((changes + more).subrange(start, end) == changes.subrange(start, end));
        } else {
            assert(all.subrange(start, end) == part);
            assert((changes + more).subrange(start, end) == more);
        }
    }
}

/// What the index holds as a whole.
#[derive(Debug, PartialEq, Eq)]
pub struct Stats {
    pub entries: u64,
    pub min_timestamp: Option<String>,
    pub max_timestamp: Option<String>,
    /// The tags in use; untagged entries are `None`.
    pub tags: Vec<Option<String>>,
}

/// An open index.
pub struct Indexer {
    conn: Connection,
}

/// Make the table and its indexes, where they are not there yet.
fn init_schema(conn: &mut Connection) -> (r: Result<(), LogdiveError>)
    ensures
        store::identity(*final(conn)) == store::identity(*old(conn)),
        store::batches(*final(conn)) == store::batches(*old(conn)).push(schema()),
        store::history(*final(conn)) == store::history(*old(conn)),
        match r {
            Ok(()) => store::batch_run(store::identity(*old(conn)), schema()),
            Err(e) => schema_refused(store::identity(*old(conn)), e),
        },
{
    let done = store::run_batch(
        conn,
        "CREATE TABLE IF NOT EXISTS log_entries (
    id          INTEGER PRIMARY KEY AUTOINCREMENT,
    timestamp   TEXT NOT NULL,
    level       TEXT,
    message     TEXT,
    tag         TEXT,
    fields      TEXT,
    raw         TEXT NOT NULL,
    raw_hash    TEXT NOT NULL UNIQUE,
    ingested_at TEXT NOT NULL DEFAULT (datetime('now'))
);
CREATE INDEX IF NOT EXISTS idx_level     ON log_entries(level);
CREATE INDEX IF NOT EXISTS idx_tag       ON log_entries(tag);
CREATE INDEX IF NOT EXISTS idx_timestamp ON log_entries(timestamp);",
    );
    match done {
        Ok(()) => Ok(()),
        Err(e) => Err(LogdiveError::Sqlite(e)),
    }
}

/// Store the entries of one transaction. Where storing one of them fails, none is kept.
#[verifier::loop_isolation(false)]
fn insert_one_chunk(conn: &mut Connection, entries: &[LogEntry]) -> (r: Result<
    InsertStats,
    LogdiveError,
>)
    ensures
        store::identity(*final(conn)) == store::identity(*old(conn)),
        store::batches(*final(conn)) == store::batches(*old(conn)),
        match r {
            Ok(stats) => exists|t: int, changes: Seq<nat>| #[trigger]
                store::committed_with(t, writes_of(executor::entry_models(entries@), changes))
                    && store::prepared(t, insertion()) && changes.len() == entries@.len()
                    && store::history(*final(conn)) == store::history(*old(conn)).push(t) && stats@
                    == tally(
                    executor::entry_models(entries@),
                    changes,
                ),
            Err(e) => chunk_failed(
                store::identity(*old(conn)),
                executor::entry_models(entries@),
                store::history(*old(conn)),
                store::history(*final(conn)),
                e,
            ),
        },
{
    let ghost models = executor::entry_models(entries@);
    let ghost connection = store::identity(*conn);
    let ghost begun = store::history(*conn);
    let mut tx = match store::begin(conn) {
        Ok(tx) => tx,
        Err(e) => {
            proof {
                refusal_is_failure(connection, models, begun, seq![], e);
                assert(begun + Seq::<int>::empty() == begun);
            }
            return Err(LogdiveError::Sqlite(e));
        },
    };
    let ghost t = store::transaction(tx);
    match store::prepare(
        &tx,
        "INSERT OR IGNORE INTO log_entries (timestamp, level, message, tag, fields, raw, raw_hash) VALUES (?1, ?2, ?3, ?4, ?5, ?6, ?7)",
    ) {
        Ok(()) => {},
        Err(e) => {
            let _ = store::give_up(tx);
            proof {
                refusal_is_failure(connection, models, begun, seq![t], e);
                assert(begun + seq![t] == begun.push(t));
            }
            return Err(LogdiveError::Sqlite(e));
        },
    }
    let mut stats = InsertStats::default();
    let ghost mut changes: Seq<nat> = seq![];
    let mut i: usize = 0;
    while i < entries.len()
        invariant
            i <= entries@.len(),
            models == executor::entry_models(entries@),
            store::transaction(tx) == t,
            store::prepared(t, insertion()),
            store::written(tx) == writes_of(models.take(i as int), changes),
            changes.len() == i,
            stats@ == tally(models.take(i as int), changes),
            stats@.total() == i,
        decreases entries@.len() - i,
    {
        let entry = &entries[i];
        let ghost before = changes;
        proof {
            assert(models.take(i + 1).drop_last() == models.take(i as int));
            assert forall|n: nat| #[trigger] before.push(n).drop_last() == before by {}
        }
        if entry.timestamp.is_none() {
            stats.count(None);
            proof {
                changes = before.push(0);
            }
        } else {
            let row = row_for(entry);
            match store::write_row(
                &mut tx,
                "INSERT OR IGNORE INTO log_entries (timestamp, level, message, tag, fields, raw, raw_hash) VALUES (?1, ?2, ?3, ?4, ?5, ?6, ?7)",
                &row,
            ) {
                Ok(n) => {
                    stats.count(Some(n));
                    proof {
                        changes = before.push(n as nat);
                    }
                },
                Err(e) => {
                    let _ = store::give_up(tx);
                    proof {
                        assert(row_refused(models, t, i as int, changes, e));
                        refusal_is_failure(connection, models, begun, seq![t], e);
                        assert(begun + seq![t] == begun.push(t));
                    }
                    return Err(LogdiveError::Sqlite(e));
                },
            }
        }
        i = i + 1;
    }
    assert(models.take(models.len() as int) == models);
    match store::commit(tx) {
        Ok(()) => {
            assert(store::committed_with(t, writes_of(models, changes)));
            Ok(stats)
        },
        Err(e) => {
            proof {
                assert(whole_refused(models, t, changes, e));
                refusal_is_failure(connection, models, begun, seq![t], e);
                assert(begun + seq![t] == begun.push(t));
            }
            Err(LogdiveError::Sqlite(e))
        },
    }
}

impl Indexer {
    /// The database of the index.
    pub closed spec fn database(&self) -> Connection {
        self.conn
    }

    /// What tells the connection of the index from others.
    pub open spec fn identity(&self) -> int {
        store::identity(self.database())
    }

    /// The statements that the index was given to run, besides queries and insertions.
    pub open spec fn batches(&self) -> Seq<Seq<char>> {
        store::batches(self.database())
    }

    /// The transactions that were begun on the index.
    pub open spec fn history(&self) -> Seq<int> {
        store::history(self.database())
    }

    /// Open the index at `path`, and create it if there is none. Its directory is made beforehand,
    /// where [`directory_to_create`] says so. Nothing but the schema is run.
    pub fn open(path: &str) -> (r: Result<Indexer, LogdiveError>)
        ensures
            match r {
                Ok(index) => store::opened(path@, index.identity()) && index.batches()
                    == seq![schema()] && store::batch_run(index.identity(), schema())
                    && index.history() == Seq::<int>::empty(),
                Err(e) => {
                    ||| e matches LogdiveError::Sqlite(cause) && store::not_opened(path@, cause)
                    ||| exists|connection: int| #[trigger]
                        store::opened(path@, connection) && schema_refused(connection, e)
                },
            },
    {
        match store::open_file(path) {
            Ok(conn) => {
                let mut conn = conn;
                match init_schema(&mut conn) {
                    Ok(()) => Ok(Indexer { conn }),
                    Err(e) => Err(e),
                }
            },
            Err(e) => Err(LogdiveError::Sqlite(e)),
        }
    }

    /// Open the index at `path` for queries alone. There must be one. Nothing is run.
    pub fn open_read_only(path: &str) -> (r: Result<Indexer, LogdiveError>)
        ensures
            match r {
                Ok(index) => store::opened_read_only(path@, index.identity()) && index.batches()
                    == Seq::<Seq<char>>::empty() && index.history() == Seq::<int>::empty(),
                Err(e) => e matches LogdiveError::Sqlite(cause) && store::not_opened_read_only(
                    path@,
                    cause,
                ),
            },
    {
        match store::open_file_read_only(path) {
            Ok(conn) => Ok(Indexer { conn }),
            Err(e) => Err(LogdiveError::Sqlite(e)),
        }
    }

    /// Open an index that lives in memory. Nothing but the schema is run.
    pub fn open_in_memory() -> (r: Result<Indexer, LogdiveError>)
        ensures
            match r {
                Ok(index) => store::opened_in_memory(index.identity()) && index.batches()
                    == seq![schema()] && store::batch_run(index.identity(), schema())
                    && index.history() == Seq::<int>::empty(),
                Err(e) => {
                    ||| e matches LogdiveError::Sqlite(cause) && store::not_opened_in_memory(cause)
                    ||| exists|connection: int| #[trigger]
                        store::opened_in_memory(connection) && schema_refused(connection, e)
                },
            },
    {
        match store::open_memory() {
            Ok(conn) => {
                let mut conn = conn;
                match init_schema(&mut conn) {
                    Ok(()) => Ok(Indexer { conn }),
                    Err(e) => Err(e),
                }
            },
            Err(e) => Err(LogdiveError::Sqlite(e)),
        }
    }

    /// The database of the index, for queries.
    pub fn connection(&self) -> (r: &Connection)
        ensures
            *r == self.database(),
    {
        &self.conn
    }

    /// Insert entries, in transactions of [`BATCH_SIZE`] each but for the last.
    ///
    /// Every entry is counted once. Where a transaction fails, those before it are kept, nothing of
    /// its own is, and none is begun after it.
    pub fn insert_batch(&mut self, entries: &[LogEntry]) -> (r: Result<InsertStats, LogdiveError>)
        ensures
            final(self).identity() == old(self).identity(),
            final(self).batches() == old(self).batches(),
            match r {
                Ok(stats) => stats@.total() == entries@.len() && exists|
                    transactions: Seq<int>,
                    changes: Seq<nat>,
                | #[trigger]
                    recorded(executor::entry_models(entries@), transactions, changes)
                        && final(self).history() == old(self).history() + transactions && stats@
                        == tally(executor::entry_models(entries@), changes),
                Err(e) => insertion_failed(
                    old(self).identity(),
                    executor::entry_models(entries@),
                    old(self).history(),
                    final(self).history(),
                    e,
                ),
            },
            entries@.len() == 0 ==> r is Ok,
    {
        let ghost models = executor::entry_models(entries@);
        let ghost connection = self.identity();
        let len = entries.len();
        let mut total = InsertStats::default();
        let mut start: usize = 0;
        let ghost mut transactions: Seq<int> = seq![];
        let ghost mut changes: Seq<nat> = seq![];
        assert(self.history() + transactions == self.history());
        while start < len
            invariant
                len == entries@.len(),
                start <= len,
                models == executor::entry_models(entries@),
                self.identity() == old(self).identity(),
                self.identity() == connection,
                self.batches() == old(self).batches(),
                self.history() == old(self).history() + transactions,
                start < len ==> start == transactions.len() * BATCH_SIZE,
                recorded(models.take(start as int), transactions, changes),
                total@ == tally(models.take(start as int), changes),
                total@.total() == start,
            decreases len - start,
        {
            let end: usize = if len - start > BATCH_SIZE {
                start + BATCH_SIZE
            } else {
                len
            };
            let chunk = slice_subrange(entries, start, end);
            let ghost front = models.take(start as int);
            let ghost part = executor::entry_models(chunk@);
            let ghost begun = self.history();
            proof {
                assert(front + part == models.take(end as int));
            }
            match insert_one_chunk(&mut self.conn, chunk) {
                Ok(stats) => {
                    proof {
                        let (t, more) = choose|t: int, more: Seq<nat>| #[trigger]
                            store::committed_with(t, writes_of(part, more)) && store::prepared(
                                t,
                                insertion(),
                            ) && more.len() == part.len() && self.history() == begun.push(t)
                                && stats@ == tally(
                                part,
                                more,
                            );
                        every_entry_is_counted(part, more);
                        batches_add_up(front, part, changes, more);
                        one_more_chunk(front, part, transactions, changes, t, more);
                        transactions = transactions.push(t);
                        changes = changes + more;
                        assert(self.history() == old(self).history() + transactions);
                    }
                    total.extend(stats);
                },
                Err(e) => {
                    proof {
                        let cause = e->Sqlite_0;
                        let failed = choose|failed: Seq<int>| #[trigger]
                            chunk_refused(connection, part, failed, cause) && self.history()
                                == begun + failed;
                        assert(part == models.subrange(start as int, end as int));
                        assert(recorded_in_part(
                            connection,
                            models,
                            transactions,
                            changes,
                            failed,
                            cause,
                        ));
                    }
                    return Err(e);
                },
            }
            start = end;
        }
        assert(models.take(start as int) == models);
        Ok(total)
    }

    /// What the index holds as a whole.
    pub fn stats(&self) -> (r: Result<Stats, LogdiveError>)
        ensures
            match r {
                Ok(stats) => store::bounds_answered(
                    self.database(),
                    overview(),
                    stats.entries as nat,
                    json::text_view(stats.min_timestamp),
                    json::text_view(stats.max_timestamp),
                ) && store::texts_answered(
                    self.database(),
                    tag_list(),
                    store::text_views(stats.tags@),
                ),
                Err(e) => e matches LogdiveError::Sqlite(cause) && {
                    ||| store::bounds_refused(self.database(), overview(), cause)
                    ||| store::texts_refused(self.database(), tag_list(), cause) && exists|
                        entries: nat,
                        earliest: Option<Seq<char>>,
                        latest: Option<Seq<char>>,
                    | #[trigger]
                        store::bounds_answered(
                            self.database(),
                            overview(),
                            entries,
                            earliest,
                            latest,
                        )
                },
            },
    {
        let (entries, min_timestamp, max_timestamp) = match store::select_bounds(
            &self.conn,
            "SELECT COUNT(*), MIN(timestamp), MAX(timestamp) FROM log_entries",
        ) {
            Ok(bounds) => bounds,
            Err(e) => {
                return Err(LogdiveError::Sqlite(e));
            },
        };
        match store::select_texts(&self.conn, "SELECT DISTINCT tag FROM log_entries ORDER BY tag") {
            Ok(tags) => Ok(Stats { entries, min_timestamp, max_timestamp, tags }),
            Err(e) => Err(LogdiveError::Sqlite(e)),
        }
    }
}

} // verus!
