//! What can go wrong.
use crate::text::decimal_text;
use vstd::prelude::*;
use vstd::string::*;

verus! {

/// `rusqlite::Error`, why the database refused.
#[verifier::external_type_specification]
#[verifier::external_body]
pub struct ExSqliteError(rusqlite::Error);

/// Why a text is not a query.
#[derive(Debug, Clone, Copy, PartialEq, Eq, Structural)]
pub enum QueryErrorKind {
    /// There is nothing in the query.
    Empty,
    /// A character that begins no token.
    UnexpectedCharacter,
    /// A quoted string without its closing quote.
    UnterminatedString,
    /// A clause does not begin with a field name or a time range.
    ExpectedField,
    /// A field name with a character that no field name has.
    InvalidFieldName,
    /// A field name is not followed by an operator.
    ExpectedOperator,
    /// An operator is not followed by a value.
    ExpectedValue,
    /// An integer that does not fit the range of integers.
    IntegerOutOfRange,
    /// `last` is not followed by a whole number.
    ExpectedDuration,
    /// The number of a duration is not followed by `m`, `h` or `d`.
    ExpectedDurationUnit,
    /// `since` is not followed by a datetime.
    ExpectedDatetime,
    /// Two clauses without `AND` between them.
    ExpectedAnd,
    /// `OR` is not part of the language.
    OrNotSupported,
}

/// A query that could not be understood, and the byte of its text where that became clear.
#[derive(Debug, Clone, Copy, PartialEq, Eq, Structural)]
pub struct QueryParseError {
    pub position: usize,
    pub kind: QueryErrorKind,
}

/// Everything that an operation of this library can answer in place of a result.
#[derive(Debug)]
pub enum LogdiveError {
    /// The query is not in the query language.
    QueryParse(QueryParseError),
    /// A `since` clause with a datetime in none of the accepted formats.
    InvalidDatetime { input: String, reason: String },
    /// A field name that must not stand in a JSON path.
    UnsafeFieldName(String),
    /// The `fields` column of a row is not a JSON object.
    CorruptFieldsJson(serde_json::Error),
    /// The database refused.
    Sqlite(rusqlite::Error),
}

/// The message for each kind of query error.
pub open spec fn kind_message(kind: QueryErrorKind) -> Seq<char> {
    match kind {
        QueryErrorKind::Empty => "the query is empty"@,
        QueryErrorKind::UnexpectedCharacter => "unexpected character"@,
        QueryErrorKind::UnterminatedString => "unterminated string"@,
        QueryErrorKind::ExpectedField => "expected a field name or a time range"@,
        QueryErrorKind::InvalidFieldName => "field names match [a-zA-Z_][a-zA-Z0-9_.]*"@,
        QueryErrorKind::ExpectedOperator => "expected =, !=, >, < or CONTAINS"@,
        QueryErrorKind::ExpectedValue => "expected a value"@,
        QueryErrorKind::IntegerOutOfRange => "integer out of range"@,
        QueryErrorKind::ExpectedDuration => "expected a whole number after `last`"@,
        QueryErrorKind::ExpectedDurationUnit => "expected a unit: m, h or d"@,
        QueryErrorKind::ExpectedDatetime => "expected a datetime after `since`"@,
        QueryErrorKind::ExpectedAnd => "expected AND between clauses"@,
        QueryErrorKind::OrNotSupported => "OR is not supported in v1; it is deferred to v2"@,
    }
}

/// Each kind of query error has a message of its own.
pub proof fn kinds_have_messages_of_their_own(a: QueryErrorKind, b: QueryErrorKind)
    ensures
        kind_message(a) == kind_message(b) ==> a == b,
{
    reveal_strlit("the query is empty");
    reveal_strlit("unexpected character");
    reveal_strlit("unterminated string");
    reveal_strlit("expected a field name or a time range");
    reveal_strlit("field names match [a-zA-Z_][a-zA-Z0-9_.]*");
    reveal_strlit("expected =, !=, >, < or CONTAINS");
    reveal_strlit("expected a value");
    reveal_strlit("integer out of range");
    reveal_strlit("expected a whole number after `last`");
    reveal_strlit("expected a unit: m, h or d");
    reveal_strlit("expected a datetime after `since`");
    reveal_strlit("expected AND between clauses");
    reveal_strlit("OR is not supported in v1; it is deferred to v2");
    if kind_message(a) == kind_message(b) {
        let x = kind_message(a);
        let y = kind_message(b);
        assert(x.len() == y.len() && x[0] == y[0]);
    }
}

/// The message of a query error: what is wrong, and where.
pub open spec fn query_error_message(e: QueryParseError) -> Seq<char> {
    kind_message(e.kind) + " at byte "@ + crate::text::decimal(e.position as nat)
}

/// The message of a query error ends with the byte where it is, and begins with what is wrong
/// there, which does not depend on the place.
pub proof fn messages_name_the_place(kind: QueryErrorKind, at: usize, other: usize)
    ensures
        ({
            let place = " at byte "@ + crate::text::decimal(at as nat);
            let message = query_error_message(QueryParseError { position: at, kind });
            let elsewhere = query_error_message(QueryParseError { position: other, kind });
            let place_elsewhere = " at byte "@ + crate::text::decimal(other as nat);
            &&& message == kind_message(kind) + place
            &&& elsewhere == kind_message(kind) + place_elsewhere
        }),
{
}

impl QueryParseError {
    /// The message for the user.
    pub fn message(&self) -> (r: String)
        ensures
            r@ == query_error_message(*self),
    {
        let what = match self.kind {
            QueryErrorKind::Empty => "the query is empty",
            QueryErrorKind::UnexpectedCharacter => "unexpected character",
            QueryErrorKind::UnterminatedString => "unterminated string",
            QueryErrorKind::ExpectedField => "expected a field name or a time range",
            QueryErrorKind::InvalidFieldName => "field names match [a-zA-Z_][a-zA-Z0-9_.]*",
            QueryErrorKind::ExpectedOperator => "expected =, !=, >, < or CONTAINS",
            QueryErrorKind::ExpectedValue => "expected a value",
            QueryErrorKind::IntegerOutOfRange => "integer out of range",
            QueryErrorKind::ExpectedDuration => "expected a whole number after `last`",
            QueryErrorKind::ExpectedDurationUnit => "expected a unit: m, h or d",
            QueryErrorKind::ExpectedDatetime => "expected a datetime after `since`",
            QueryErrorKind::ExpectedAnd => "expected AND between clauses",
            QueryErrorKind::OrNotSupported => "OR is not supported in v1; it is deferred to v2",
        };
        let mut r = what.to_owned();
        r.append(" at byte ");
        r.append(decimal_text(self.position as u64).as_str());
        r
    }
}

/// The text that `rusqlite` gives for an error.
pub uninterp spec fn sqlite_error_shown(e: rusqlite::Error) -> Seq<char>;

/// The text that `serde_json` gives for an error.
pub uninterp spec fn json_error_shown(e: serde_json::Error) -> Seq<char>;

/// `Display` of `rusqlite::Error`: the text is [`sqlite_error_shown`].
#[verifier::external_body]
fn show_sqlite_error(e: &rusqlite::Error) -> (r: String)
    ensures
        r@ == sqlite_error_shown(*e),
{
    e.to_string()
}

/// `Display` of `serde_json::Error`: the text is [`json_error_shown`].
#[verifier::external_body]
fn show_json_error(e: &serde_json::Error) -> (r: String)
    ensures
        r@ == json_error_shown(*e),
{
    e.to_string()
}

/// The message of an error.
pub open spec fn error_message(e: LogdiveError) -> Seq<char> {
    match e {
        LogdiveError::QueryParse(e) => query_error_message(e),
        LogdiveError::InvalidDatetime { input, reason } => "invalid datetime `"@ + input@ + "`: "@
            + reason@,
        LogdiveError::UnsafeFieldName(name) => "unsafe field name `"@ + name@ + "`"@,
        LogdiveError::CorruptFieldsJson(e) => "corrupt fields: "@ + json_error_shown(e),
        LogdiveError::Sqlite(e) => "database error: "@ + sqlite_error_shown(e),
    }
}

/// What the user is told of an error: one in a query is told from the others.
pub open spec fn error_report(e: LogdiveError) -> Seq<char> {
    if e is QueryParse {
        "logdive: query error: "@ + error_message(e)
    } else {
        "logdive: "@ + error_message(e)
    }
}

/// The message of an error says what it is about, and the report of one in a query tells it from
/// the others.
pub proof fn messages_say_what_they_are_about(
    input: String,
    reason: String,
    sqlite: rusqlite::Error,
    fields: serde_json::Error,
    query: QueryParseError,
)
    ensures
        error_message(LogdiveError::InvalidDatetime { input, reason }) == "invalid datetime `"@
            + input@ + "`: "@ + reason@,
        error_message(LogdiveError::UnsafeFieldName(input)) == "unsafe field name `"@ + input@
            + "`"@,
        error_message(LogdiveError::Sqlite(sqlite)) == "database error: "@ + sqlite_error_shown(
            sqlite,
        ),
        error_message(LogdiveError::CorruptFieldsJson(fields)) == "corrupt fields: "@
            + json_error_shown(fields),
        error_message(LogdiveError::QueryParse(query)) == query_error_message(query),
        error_report(LogdiveError::QueryParse(query)) == "logdive: query error: "@
            + query_error_message(query),
        error_report(LogdiveError::Sqlite(sqlite)) == "logdive: "@ + error_message(
            LogdiveError::Sqlite(sqlite),
        ),
        error_report(LogdiveError::UnsafeFieldName(input)) == "logdive: "@ + error_message(
            LogdiveError::UnsafeFieldName(input),
        ),
        error_report(LogdiveError::InvalidDatetime { input, reason }) == "logdive: "@
            + error_message(LogdiveError::InvalidDatetime { input, reason }),
        error_report(LogdiveError::CorruptFieldsJson(fields)) == "logdive: "@ + error_message(
            LogdiveError::CorruptFieldsJson(fields),
        ),
{
}

impl LogdiveError {
    /// The message for the user.
    pub fn message(&self) -> (r: String)
        ensures
            r@ == error_message(*self),
    {
        match self {
            LogdiveError::QueryParse(e) => e.message(),
            LogdiveError::InvalidDatetime { input, reason } => {
                let mut r = "invalid datetime `".to_owned();
                r.append(input.as_str());
                r.append("`: ");
                r.append(reason.as_str());
                r
            },
            LogdiveError::UnsafeFieldName(name) => {
                let mut r = "unsafe field name `".to_owned();
                r.append(name.as_str());
                r.append("`");
                r
            },
            LogdiveError::CorruptFieldsJson(e) => {
                let mut r = "corrupt fields: ".to_owned();
                r.append(show_json_error(e).as_str());
                r
            },
            LogdiveError::Sqlite(e) => {
                let mut r = "database error: ".to_owned();
                r.append(show_sqlite_error(e).as_str());
                r
            },
        }
    }

    /// What the user is told: an error in a query is told from the others.
    pub fn report(&self) -> (r: String)
        ensures
            r@ == error_report(*self),
    {
        let mut r = match self {
            LogdiveError::QueryParse(_) => "logdive: query error: ".to_owned(),
            _ => "logdive: ".to_owned(),
        };
        r.append(self.message().as_str());
        r
    }
}

} // verus!
