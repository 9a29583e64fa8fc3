//! The database: rows, bound values, and the calls into `rusqlite`.
//!
//! What a database answers depends on what is on disk, and two calls may answer differently. So
//! the names for answers are relations: they say of an answer, or of an error in place of one,
//! which call it was given to, and nothing says that it is the only one. What is handed to a
//! connection is another matter: the statements that it was given to run, the transactions that
//! were begun on it and the rows that were written in each are kept account of. Whoever has a
//! connection without the right to change it can ask for nothing but the statements that read.
use crate::executor;
use crate::indexer;
use crate::json;
use crate::query::{ClauseModel, Fraction};
use crate::time::Instant;
use rusqlite::types::Value as SqlValue;
use rusqlite::{Connection, Transaction};
use vstd::prelude::*;

verus! {

// ---------------------------------------------------------------------------
// Plain values
// ---------------------------------------------------------------------------

/// A value for a placeholder of a statement.
#[derive(Debug, PartialEq, Eq)]
pub enum Bind {
    Text(String),
    Integer(i64),
    Real(Fraction),
}

/// What a [`Bind`] says.
pub enum BindModel {
    Text(Seq<char>),
    Integer(int),
    Real(Seq<char>),
}

impl View for Bind {
    type V = BindModel;

    open spec fn view(&self) -> BindModel {
        match self {
            Bind::Text(t) => BindModel::Text(t@),
            Bind::Integer(n) => BindModel::Integer(*n as int),
            Bind::Real(f) => BindModel::Real(f@),
        }
    }
}

/// What a list of bound values says.
pub open spec fn bind_models(binds: Seq<Bind>) -> Seq<BindModel> {
    binds.map_values(|b: Bind| b@)
}

/// The columns of a stored entry, as a query selects them.
#[derive(Debug, PartialEq, Eq)]
pub struct StoredRow {
    pub timestamp: Option<String>,
    pub level: Option<String>,
    pub message: Option<String>,
    pub tag: Option<String>,
    /// The JSON text of the entry's other members.
    pub fields: String,
    pub raw: String,
}

/// What a [`StoredRow`] says.
#[verifier::ext_equal]
pub struct RowModel {
    pub timestamp: Option<Seq<char>>,
    pub level: Option<Seq<char>>,
    pub message: Option<Seq<char>>,
    pub tag: Option<Seq<char>>,
    pub fields: Seq<char>,
    pub raw: Seq<char>,
}

impl View for StoredRow {
    type V = RowModel;

    open spec fn view(&self) -> RowModel {
        RowModel {
            timestamp: json::text_view(self.timestamp),
            level: json::text_view(self.level),
            message: json::text_view(self.message),
            tag: json::text_view(self.tag),
            fields: self.fields@,
            raw: self.raw@,
        }
    }
}

/// A row to store: its columns, and the digest of its line.
#[derive(Debug, PartialEq, Eq)]
pub struct HashedRow {
    pub row: StoredRow,
    pub raw_hash: String,
}

/// What a [`HashedRow`] says.
#[verifier::ext_equal]
pub struct HashedModel {
    pub row: RowModel,
    pub raw_hash: Seq<char>,
}

impl View for HashedRow {
    type V = HashedModel;

    open spec fn view(&self) -> HashedModel {
        HashedModel { row: self.row@, raw_hash: self.raw_hash@ }
    }
}

/// A row that was written: the statement that wrote it, the row, and the number of rows that this
/// changed.
#[verifier::ext_equal]
pub struct WriteModel {
    pub sql: Seq<char>,
    pub row: HashedModel,
    pub changes: nat,
}

/// What a list of optional texts says.
pub open spec fn text_views(texts: Seq<Option<String>>) -> Seq<Option<Seq<char>>> {
    texts.map_values(|t: Option<String>| json::text_view(t))
}

/// What the database answered, row by row; where a row could not be had there is an error.
pub open spec fn answers_of(rows: Seq<Result<StoredRow, rusqlite::Error>>) -> Seq<
    Result<RowModel, rusqlite::Error>,
> {
    rows.map_values(
        |row: Result<StoredRow, rusqlite::Error>|
            match row {
                Ok(row) => Ok::<RowModel, rusqlite::Error>(row@),
                Err(e) => Err(e),
            },
    )
}

/// Whether every row was had.
pub open spec fn all_rows_had(answers: Seq<Result<RowModel, rusqlite::Error>>) -> bool {
    forall|i: int| 0 <= i < answers.len() ==> (#[trigger] answers[i]) is Ok
}

// ---------------------------------------------------------------------------
// Outside types, and what calls on them answered
// ---------------------------------------------------------------------------

/// `rusqlite::Connection`, an open database.
#[verifier::external_type_specification]
#[verifier::external_body]
pub struct ExConnection(Connection);

/// `rusqlite::Transaction`, changes that are kept together or not at all.
#[verifier::external_type_specification]
#[verifier::external_body]
pub struct ExTransaction<'conn>(Transaction<'conn>);

/// Whether these rows were an answer of the database to this statement with these values.
pub uninterp spec fn answered(
    conn: Connection,
    sql: Seq<char>,
    binds: Seq<BindModel>,
    answers: Seq<Result<RowModel, rusqlite::Error>>,
) -> bool;

/// Whether the database refused this statement with these values, for this reason.
pub uninterp spec fn query_refused(
    conn: Connection,
    sql: Seq<char>,
    binds: Seq<BindModel>,
    e: rusqlite::Error,
) -> bool;

/// Whether this count of rows and these bounds of their timestamps were an answer of the database
/// to this statement.
pub uninterp spec fn bounds_answered(
    conn: Connection,
    sql: Seq<char>,
    entries: nat,
    earliest: Option<Seq<char>>,
    latest: Option<Seq<char>>,
) -> bool;

/// Whether the database did not answer this statement with a count and bounds, for this reason.
pub uninterp spec fn bounds_refused(conn: Connection, sql: Seq<char>, e: rusqlite::Error) -> bool;

/// Whether these texts were an answer of the database to this statement.
pub uninterp spec fn texts_answered(
    conn: Connection,
    sql: Seq<char>,
    texts: Seq<Option<Seq<char>>>,
) -> bool;

/// Whether the database did not answer this statement with texts, for this reason.
pub uninterp spec fn texts_refused(conn: Connection, sql: Seq<char>, e: rusqlite::Error) -> bool;

/// What tells a connection from others, and stays the same as long as it is open.
pub uninterp spec fn identity(conn: Connection) -> int;

/// Whether a connection was opened on this path.
pub uninterp spec fn opened(path: Seq<char>, connection: int) -> bool;

/// Whether a connection was opened on this path for reading alone.
pub uninterp spec fn opened_read_only(path: Seq<char>, connection: int) -> bool;

/// Whether a connection was opened on a database of its own in memory.
pub uninterp spec fn opened_in_memory(connection: int) -> bool;

/// Whether no connection could be opened on this path, for this reason.
pub uninterp spec fn not_opened(path: Seq<char>, e: rusqlite::Error) -> bool;

/// Whether no connection could be opened on this path for reading alone, for this reason.
pub uninterp spec fn not_opened_read_only(path: Seq<char>, e: rusqlite::Error) -> bool;

/// Whether no connection could be opened on a database in memory, for this reason.
pub uninterp spec fn not_opened_in_memory(e: rusqlite::Error) -> bool;

/// The texts of statements that were handed to a connection to be run, in order.
pub uninterp spec fn batches(conn: Connection) -> Seq<Seq<char>>;

/// Whether a connection ran these statements, all of them.
pub uninterp spec fn batch_run(connection: int, sql: Seq<char>) -> bool;

/// Whether a connection refused these statements, for this reason.
pub uninterp spec fn batch_refused(
    connection: int,
    sql: Seq<char>,
    e: rusqlite::Error,
) -> bool;

/// The transactions that were begun on a connection, in order.
pub uninterp spec fn history(conn: Connection) -> Seq<int>;

/// Whether a connection refused to begin a transaction, for this reason.
pub uninterp spec fn begin_refused(connection: int, e: rusqlite::Error) -> bool;

/// What tells a transaction from others.
pub uninterp spec fn transaction(tx: Transaction<'_>) -> int;

/// The rows that were written in a transaction, in order.
pub uninterp spec fn written(tx: Transaction<'_>) -> Seq<WriteModel>;

/// Whether this statement was prepared in a transaction.
pub uninterp spec fn prepared(transaction: int, sql: Seq<char>) -> bool;

/// Whether this statement could not be prepared in a transaction, for this reason.
pub uninterp spec fn preparation_refused(
    transaction: int,
    sql: Seq<char>,
    e: rusqlite::Error,
) -> bool;

/// Whether a transaction with these rows written in it refused another, for this reason.
pub uninterp spec fn write_refused(
    transaction: int,
    writes: Seq<WriteModel>,
    sql: Seq<char>,
    row: HashedModel,
    e: rusqlite::Error,
) -> bool;

/// Whether a transaction with these rows written in it could not be committed, for this reason.
pub uninterp spec fn commit_refused(
    transaction: int,
    writes: Seq<WriteModel>,
    e: rusqlite::Error,
) -> bool;

/// Whether a transaction was committed with these rows written in it.
pub uninterp spec fn committed_with(transaction: int, writes: Seq<WriteModel>) -> bool;

/// Whether a transaction was given up: no commit of it succeeded, and it was told to roll back
/// unless it was no longer open.
pub uninterp spec fn discarded(transaction: int) -> bool;

// ---------------------------------------------------------------------------
// Calls
// ---------------------------------------------------------------------------

/// `rusqlite::Connection::prepare` and `rusqlite::Statement::query_map`: the statement is run
/// with the given values, and each row of the answer is read column by column.
///
/// The answer is in the relation [`answered`] to what was asked, with the error of each row that
/// could not be read; where there is no answer, the error is in [`query_refused`]. A statement that
/// ends in `LIMIT n`, as those of [`executor::selection`] do, is answered with at most `n` rows.
/// What the rows hold, and in which order they come, is the database's and is not said. A fraction
/// is bound as the nearest 64-bit number. Only the statements of queries are taken, which write
/// nothing.
#[verifier::external_body]
pub(crate) fn select_rows(conn: &Connection, sql: &str, binds: &Vec<Bind>) -> (r: Result<
    Vec<Result<StoredRow, rusqlite::Error>>,
    rusqlite::Error,
>)
    requires
        executor::is_selection(sql@),
    ensures
        match r {
            Ok(rows) => answered(*conn, sql@, bind_models(binds@), answers_of(rows@)),
            Err(e) => query_refused(*conn, sql@, bind_models(binds@), e),
        },
        r matches Ok(rows) ==> forall|clauses: Seq<ClauseModel>, n: nat, now: Instant|
            (#[trigger] executor::selection(clauses, Some(n), now) matches Ok((text, _)) && text
                == sql@ && all_rows_had(answers_of(rows@))) ==> rows@.len() <= n,
{
    let mut stmt = conn.prepare(sql)?;
    let values = binds.iter().map(|bind| match bind {
        Bind::Text(t) => SqlValue::Text(t.clone()),
        Bind::Integer(n) => SqlValue::Integer(*n),
        Bind::Real(f) => SqlValue::Real(f.numeral().parse().expect("a numeral is a number")),
    });
    let rows = stmt.query_map(rusqlite::params_from_iter(values), |row| Ok(StoredRow {
        timestamp: row.get(0)?, level: row.get(1)?, message: row.get(2)?,
        tag: row.get(3)?, fields: row.get(4)?, raw: row.get(5)?,
    }))?;
    Ok(rows.collect())
}

/// `rusqlite::Connection::query_row` of a count and two texts: the answer is in the relation
/// [`bounds_answered`] to what was asked, an error in [`bounds_refused`], and nothing else is said
/// of it. Only the statement of [`indexer::overview`] is taken, which writes nothing.
#[verifier::external_body]
pub(crate) fn select_bounds(conn: &Connection, sql: &str) -> (r: Result<
    (u64, Option<String>, Option<String>),
    rusqlite::Error,
>)
    requires
        sql@ == indexer::overview(),
    ensures
        match r {
            Ok((entries, earliest, latest)) => bounds_answered(
                *conn,
                sql@,
                entries as nat,
                json::text_view(earliest),
                json::text_view(latest),
            ),
            Err(e) => bounds_refused(*conn, sql@, e),
        },
{
    conn.query_row(sql, (), |row| Ok((row.get(0)?, row.get(1)?, row.get(2)?)))
}

/// `rusqlite::Connection::prepare` and `rusqlite::Statement::query_map` for one column of texts:
/// the answer is in the relation [`texts_answered`] to what was asked, an error, of the statement
/// or of a row, in [`texts_refused`], and nothing else is said of it. Only the statement of
/// [`indexer::tag_list`] is taken, which writes nothing.
#[verifier::external_body]
pub(crate) fn select_texts(conn: &Connection, sql: &str) -> (r: Result<
    Vec<Option<String>>,
    rusqlite::Error,
>)
    requires
        sql@ == indexer::tag_list(),
    ensures
        match r {
            Ok(texts) => texts_answered(*conn, sql@, text_views(texts@)),
            Err(e) => texts_refused(*conn, sql@, e),
        },
{
    let mut stmt = conn.prepare(sql)?;
    let texts = stmt.query_map((), |row| row.get(0))?;
    texts.collect()
}

/// `rusqlite::Connection::open`: a connection on this path, to which nothing has been handed yet,
/// or an error in [`not_opened`]. Nothing is said of the database, which is what is on disk.
#[verifier::external_body]
pub(crate) fn open_file(path: &str) -> (r: Result<Connection, rusqlite::Error>)
    ensures
        match r {
            Ok(conn) => opened(path@, identity(conn)) && untouched(conn),
            Err(e) => not_opened(path@, e),
        },
{
    Connection::open(path)
}

/// `rusqlite::Connection::open_with_flags` with `SQLITE_OPEN_READ_ONLY`: a connection on this path
/// that cannot write, and to which nothing has been handed yet, or an error in
/// [`not_opened_read_only`]. Nothing is said of the database, which is what is on disk.
#[verifier::external_body]
pub(crate) fn open_file_read_only(path: &str) -> (r: Result<Connection, rusqlite::Error>)
    ensures
        match r {
            Ok(conn) => opened_read_only(path@, identity(conn)) && untouched(conn),
            Err(e) => not_opened_read_only(path@, e),
        },
{
    Connection::open_with_flags(path, rusqlite::OpenFlags::SQLITE_OPEN_READ_ONLY)
}

/// `rusqlite::Connection::open_in_memory`: a connection on a database of its own in memory, to
/// which nothing has been handed yet, or an error in [`not_opened_in_memory`].
#[verifier::external_body]
pub(crate) fn open_memory() -> (r: Result<Connection, rusqlite::Error>)
    ensures
        match r {
            Ok(conn) => opened_in_memory(identity(conn)) && untouched(conn),
            Err(e) => not_opened_in_memory(e),
        },
{
    Connection::open_in_memory()
}

/// Whether nothing has been handed to a connection.
pub open spec fn untouched(conn: Connection) -> bool {
    batches(conn).len() == 0 && history(conn).len() == 0
}

/// `rusqlite::Connection::execute_batch`: the statements are handed to the connection. Where it
/// succeeds, all of them were run, which [`batch_run`] says. Where it fails, some of them may have
/// been, and the error is in [`batch_refused`].
#[verifier::external_body]
pub(crate) fn run_batch(conn: &mut Connection, sql: &str) -> (r: Result<(), rusqlite::Error>)
    ensures
        identity(*final(conn)) == identity(*old(conn)),
        batches(*final(conn)) == batches(*old(conn)).push(sql@),
        history(*final(conn)) == history(*old(conn)),
        match r {
            Ok(()) => batch_run(identity(*old(conn)), sql@),
            Err(e) => batch_refused(identity(*old(conn)), sql@, e),
        },
{
    conn.execute_batch(sql)
}

/// `rusqlite::Connection::transaction`: a transaction on this connection in which nothing is
/// written yet. The connection stays open, and what goes through the transaction begins no other.
/// Where it fails, none is begun, and the error is in [`begin_refused`]. Nothing is said of the
/// database.
#[verifier::external_body]
pub(crate) fn begin<'a>(conn: &'a mut Connection) -> (r: Result<Transaction<'a>, rusqlite::Error>)
    ensures
        identity(*final(conn)) == identity(*old(conn)),
        batches(*final(conn)) == batches(*old(conn)),
        match r {
            Ok(tx) => written(tx).len() == 0 && history(*final(conn)) == history(*old(conn)).push(
                transaction(tx),
            ),
            Err(e) => history(*final(conn)) == history(*old(conn)) && begin_refused(
                identity(*old(conn)),
                e,
            ),
        },
{
    conn.transaction()
}

/// `rusqlite::Connection::prepare` within a transaction: the statement is prepared anew, which
/// [`prepared`] says, and nothing is written. Where it fails, the error is in
/// [`preparation_refused`]. Whether it does depends on what the database holds, and is not said.
#[verifier::external_body]
pub(crate) fn prepare(tx: &Transaction<'_>, sql: &str) -> (r: Result<(), rusqlite::Error>)
    requires
        sql@ == indexer::insertion(),
    ensures
        match r {
            Ok(()) => prepared(transaction(*tx), sql@),
            Err(e) => preparation_refused(transaction(*tx), sql@, e),
        },
{
    tx.prepare(sql).map(|_| ())
}

/// `rusqlite::Statement::execute` of the statement that `rusqlite::Connection::prepare_cached`
/// gives within a transaction, with the seven columns of a row in the order of [`HashedRow`]: the
/// row is written by the statement, which changes so many rows. Where it fails, nothing more is
/// written, and the error is in [`write_refused`]. Which number of rows is changed depends on what
/// the database holds, and is not said.
#[verifier::external_body]
pub(crate) fn write_row(tx: &mut Transaction<'_>, sql: &str, hashed: &HashedRow) -> (r: Result<
    usize,
    rusqlite::Error,
>)
    requires
        sql@ == indexer::insertion(),
        prepared(transaction(*old(tx)), sql@),
    ensures
        transaction(*final(tx)) == transaction(*old(tx)),
        match r {
            Ok(changes) => written(*final(tx)) == written(*old(tx)).push(
                (WriteModel { sql: sql@, row: hashed@, changes: changes as nat }),
            ),
            Err(e) => written(*final(tx)) == written(*old(tx)) && write_refused(
                transaction(*old(tx)),
                written(*old(tx)),
                sql@,
                hashed@,
                e,
            ),
        },
{
    let row = &hashed.row;
    tx.prepare_cached(sql)?.execute((&row.timestamp, &row.level, &row.message, &row.tag,
        &row.fields, &row.raw, &hashed.raw_hash))
}

/// `rusqlite::Transaction::commit`: where it succeeds the transaction has been committed with what
/// was written in it; where it fails the transaction is given up, as one that is dropped is, and
/// the error is in [`commit_refused`].
#[verifier::external_body]
pub(crate) fn commit(tx: Transaction<'_>) -> (r: Result<(), rusqlite::Error>)
    ensures
        match r {
            Ok(()) => committed_with(transaction(tx), written(tx)),
            Err(e) => discarded(transaction(tx)) && commit_refused(
                transaction(tx),
                written(tx),
                e,
            ),
        },
{
    tx.commit()
}

/// `rusqlite::Transaction::finish` of a transaction that is not committed: it is given up, which
/// is what becomes of one that is dropped. The error, where there is one, is that of the rollback.
#[verifier::external_body]
pub(crate) fn give_up(tx: Transaction<'_>) -> (r: Result<(), rusqlite::Error>)
    ensures
        match r {
            Ok(()) => discarded(transaction(tx)),
            Err(_) => discarded(transaction(tx)),
        },
{
    tx.finish()
}

} // verus!
