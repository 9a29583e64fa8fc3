//! The HTTP interface: what a request asks for, and what is answered.
//!
//! Requests and responses themselves are handled elsewhere; here are the parameters, the bodies
//! and the status codes.
use crate::entry::{EntryModel, LogEntry};
use crate::error;
use crate::error::LogdiveError;
use crate::executor;
use crate::indexer::Stats;
use crate::json;
use crate::json::Json;
use crate::language;
use crate::lexer;
use crate::parser;
use crate::query::QueryNode;
use crate::query_parser;
use crate::query_parser::parse;
use crate::store;
use crate::text;
use crate::text::{decimal_text, trim};
use serde_json::Value;
use vstd::prelude::*;
use vstd::string::*;

verus! {

/// The number of entries in an answer where the request does not say.
pub const DEFAULT_LIMIT: usize = 1000;

/// The parameters of a query request.
#[derive(Debug)]
pub struct QueryParams {
    pub q: Option<String>,
    pub limit: Option<usize>,
}

/// An HTTP response.
#[derive(Debug, PartialEq, Eq)]
pub struct Reply {
    /// The HTTP status code.
    pub status: u16,
    pub content_type: String,
    pub body: String,
}

// ---------------------------------------------------------------------------
// Errors
// ---------------------------------------------------------------------------

/// A request that is not served.
#[derive(Debug, PartialEq, Eq)]
pub struct AppError {
    /// The HTTP status code.
    pub status: u16,
    pub message: String,
}

/// Whether an error is in the request, and not in what serves it.
pub open spec fn is_clients_fault(e: LogdiveError) -> bool {
    e is QueryParse || e is InvalidDatetime || e is UnsafeFieldName
}

/// The members of an error response.
pub open spec fn error_members(message: Seq<char>) -> Map<Seq<char>, Json> {
    Map::empty().insert("error"@, Json::Text(message))
}

/// Whether this is what is answered to an error: one in the request is told to the client, and any
/// other is not.
pub open spec fn answers_error(e: LogdiveError, r: AppError) -> bool {
    if is_clients_fault(e) {
        r.status == 400 && r.message@ == error::error_message(e)
    } else {
        r.status == 500 && r.message@ == "internal server error"@
    }
}

/// Of an error of the database the client learns nothing: any two are answered alike, with 500. An
/// error in a query is told in full, with 400.
pub proof fn database_errors_are_hidden(
    a: rusqlite::Error,
    b: rusqlite::Error,
    r: AppError,
    s: AppError,
    query: error::QueryParseError,
    t: AppError,
)
    requires
        answers_error(LogdiveError::Sqlite(a), r),
        answers_error(LogdiveError::Sqlite(b), s),
        answers_error(LogdiveError::QueryParse(query), t),
    ensures
        r.status == 500 && s.status == 500,
        r.message@ == s.message@,
        t.status == 400,
        t.message@ == error::query_error_message(query),
{
}

/// What the storage has against a request is not the client's fault; what is wrong with a query is.
pub proof fn storage_errors_are_not_the_clients(
    query: error::QueryParseError,
    text: String,
    reason: String,
    sqlite: rusqlite::Error,
    fields: serde_json::Error,
)
    ensures
        is_clients_fault(LogdiveError::QueryParse(query)),
        is_clients_fault(LogdiveError::InvalidDatetime { input: text, reason }),
        is_clients_fault(LogdiveError::UnsafeFieldName(text)),
        !is_clients_fault(LogdiveError::Sqlite(sqlite)),
        !is_clients_fault(LogdiveError::CorruptFieldsJson(fields)),
{
}

/// An error response has one member, the message under `error`.
pub proof fn error_responses_hold_the_message(message: Seq<char>)
    ensures
        error_members(message).dom() == set!["error"@],
        error_members(message)["error"@] == Json::Text(message),
{
    assert(error_members(message).dom() =~= set!["error"@]);
}

impl AppError {
    /// A request that cannot be served as it is.
    pub fn bad_request(message: &str) -> (r: AppError)
        ensures
            r.status == 400,
            r.message@ == message@,
    {
        AppError { status: 400, message: message.to_owned() }
    }

    /// A request that could not be served, for reasons that are not the client's.
    pub fn internal() -> (r: AppError)
        ensures
            r.status == 500,
            r.message@ == "internal server error"@,
    {
        AppError { status: 500, message: "internal server error".to_owned() }
    }

    /// What is answered in place of a result: an error in the request is told to the client, and
    /// any other is not.
    pub fn from_error(e: &LogdiveError) -> (r: AppError)
        ensures
            answers_error(*e, r),
    {
        match e {
            LogdiveError::QueryParse(_) => AppError { status: 400, message: e.message() },
            LogdiveError::InvalidDatetime { .. } => AppError { status: 400, message: e.message() },
            LogdiveError::UnsafeFieldName(_) => AppError { status: 400, message: e.message() },
            _ => AppError::internal(),
        }
    }

    /// The response: the message as JSON.
    pub fn into_reply(self) -> (r: Reply)
        ensures
            r.status == self.status,
            r.content_type@ == "application/json"@,
            r.body@ == json::members_printed(error_members(self.message@)),
            json::members_read(r.body@) == Some(error_members(self.message@)),
    {
        let mut members = json::no_members();
        let ghost message = self.message@;
        json::insert_member(
            &mut members,
            "error".to_owned(),
            json::text_value(Some(self.message)),
        );
        proof {
            assert(json::members_of(members) =~= error_members(message));
            reveal_with_fuel(json::reads_back, 2);
        }
        Reply {
            status: self.status,
            content_type: "application/json".to_owned(),
            body: json::print_members(&members),
        }
    }
}

// ---------------------------------------------------------------------------
// Queries
// ---------------------------------------------------------------------------

/// The cap that a limit sets: none where it is zero.
pub open spec fn cap(limit: usize) -> Option<usize> {
    if limit == 0 {
        None
    } else {
        Some(limit)
    }
}

/// The cap that a limit sets: none where it is zero.
pub fn row_limit(limit: usize) -> (r: Option<usize>)
    ensures
        r == cap(limit),
{
    if limit == 0 {
        None
    } else {
        Some(limit)
    }
}

/// A limit above zero caps the entries at just so many, and zero caps nothing.
pub proof fn limits_cap_at_their_number(limit: usize)
    ensures
        limit > 0 ==> cap(limit) == Some(limit),
        cap(0) is None,
        DEFAULT_LIMIT == 1000,
{
}

/// The text of the query in a request, without the white space around it.
pub open spec fn query_text(q: Option<Seq<char>>) -> Seq<char> {
    match q {
        Some(q) => text::trimmed(q),
        None => seq![],
    }
}

/// The query of a request is read as it is written, white space around it or not, and there is none
/// exactly where nothing but white space is given.
pub proof fn requests_are_read_as_written(q: Seq<char>)
    ensures
        query_text(Some(q)).len() == 0 <==> text::blank(q),
        query_text(None).len() == 0,
        query_parser::parsed(query_text(Some(q))) is Ok ==> query_parser::parsed(q)
            == query_parser::parsed(query_text(Some(q))),
        query_text(Some(q)) == text::trimmed(q),
{
    text::trimmed_is_empty_iff_blank(q);
    if query_parser::parsed(query_text(Some(q))) is Ok {
        language::trimming_keeps_the_query(q);
    }
}

/// Whether this is what a query request comes to: a query with the number of entries at most, or
/// why it is refused.
pub open spec fn plans(
    params: QueryParams,
    r: Result<(QueryNode, Option<usize>), AppError>,
) -> bool {
    let q = query_text(json::text_view(params.q));
    if q.len() == 0 {
        r matches Err(e) && e.status == 400 && e.message@ == "missing or empty `q` parameter"@
    } else {
        match query_parser::parsed(q) {
            Ok(clauses) => r matches Ok((ast, limit)) && ast@ == clauses && limit == cap(
                match params.limit {
                    Some(n) => n,
                    None => DEFAULT_LIMIT,
                },
            ),
            Err((kind, at)) => r matches Err(e) && e.status == 400 && 0 <= at <= q.len()
                && e.message@ == error::query_error_message(
                error::QueryParseError { position: text::byte_offset(q, at) as usize, kind },
            ),
        }
    }
}

/// A request is served with the clauses of its query, all of them, and with its own limit: a
/// thousand entries where it gives none, and no limit where it gives zero. It is refused exactly
/// where there is no query or the query is not in the language.
pub proof fn requests_are_served_as_asked(
    params: QueryParams,
    r: Result<(QueryNode, Option<usize>), AppError>,
)
    requires
        plans(params, r),
    ensures
        match r {
            Ok((ast, limit)) => params.q is Some && query_parser::parsed(params.q->0@) == Ok::<
                _,
                lexer::Fault,
            >(ast@) && limit == match params.limit {
                Some(0) => None,
                Some(n) => Some(n),
                None => Some(1000usize),
            },
            Err(e) => e.status == 400 && (params.q matches Some(q) ==> text::blank(q@)
                || query_parser::parsed(text::trimmed(q@)) is Err),
        },
{
    if let Some(q) = params.q {
        requests_are_read_as_written(q@);
    }
}

/// What a query request asks for: a query, and the number of entries at most.
///
/// A request without a query is refused, and so is one whose query is not in the language.
pub fn plan_query(params: &QueryParams) -> (r: Result<(QueryNode, Option<usize>), AppError>)
    ensures
        plans(*params, r),
{
    let q = match &params.q {
        Some(q) => trim(q.as_str()),
        None => String::new(),
    };
    if q.as_str().unicode_len() == 0 {
        return Err(AppError::bad_request("missing or empty `q` parameter"));
    }
    let limit = row_limit(
        match params.limit {
            Some(n) => n,
            None => DEFAULT_LIMIT,
        },
    );
    match parse(q.as_str()) {
        Ok(ast) => Ok((ast, limit)),
        Err(e) => Err(AppError::from_error(&LogdiveError::QueryParse(e))),
    }
}

/// The members of an entry on the wire. A field that the entry does not have is `null`.
pub open spec fn wire_members(e: EntryModel) -> Map<Seq<char>, Json> {
    Map::empty().insert("timestamp"@, json::optional_text(e.timestamp)).insert(
        "level"@,
        json::optional_text(e.level),
    ).insert("message"@, json::optional_text(e.message)).insert(
        "tag"@,
        json::optional_text(e.tag),
    ).insert("fields"@, Json::Object(e.fields)).insert("raw"@, Json::Text(e.raw))
}

proof fn wire_members_read_back(e: EntryModel)
    requires
        json::reads_back(Json::Object(e.fields), (json::MAX_NESTING - 1) as nat),
    ensures
        json::members_read_back(wire_members(e), json::MAX_NESTING as nat),
{
    let depth = (json::MAX_NESTING - 1) as nat;
    let members = wire_members(e);
    assert forall|k: Seq<char>| members.dom().contains(k) implies json::reads_back(
        #[trigger] members[k],
        depth,
    ) by {}
}

/// An entry as one line of JSON.
///
/// The line reads back as the same members, where the JSON of the entry's own members does.
pub fn entry_to_json_string(entry: &LogEntry) -> (r: String)
    ensures
        r@ == json::members_printed(wire_members(entry@)),
        !r@.contains('\n'),
        json::reads_back(Json::Object(entry@.fields), (json::MAX_NESTING - 1) as nat)
            ==> json::members_read(r@) == Some(wire_members(entry@)),
{
    let mut members = json::no_members();
    assert(json::members_of(members) =~= Map::empty());
    json::insert_member(
        &mut members,
        "timestamp".to_owned(),
        json::text_value(entry.timestamp.clone()),
    );
    json::insert_member(&mut members, "level".to_owned(), json::text_value(entry.level.clone()));
    json::insert_member(
        &mut members,
        "message".to_owned(),
        json::text_value(entry.message.clone()),
    );
    json::insert_member(&mut members, "tag".to_owned(), json::text_value(entry.tag.clone()));
    json::insert_member(
        &mut members,
        "fields".to_owned(),
        json::object_value(json::clone_members(&entry.fields)),
    );
    json::insert_member(&mut members, "raw".to_owned(), json::text_value(Some(entry.raw.clone())));
    proof {
        if json::reads_back(Json::Object(entry@.fields), (json::MAX_NESTING - 1) as nat) {
            wire_members_read_back(entry@);
        }
    }
    json::print_members(&members)
}

/// Entries as lines of JSON, one for each. No entries are no lines.
pub open spec fn ndjson(entries: Seq<EntryModel>) -> Seq<char>
    decreases entries.len(),
{
    if entries.len() == 0 {
        seq![]
    } else {
        ndjson(entries.drop_last()) + json::members_printed(wire_members(entries.last())) + "\n"@
    }
}

/// The lines of two lists of entries after each other are those of the first and then those of the
/// second, and one entry is one line: its JSON and a line break. So line by line the answer has the
/// entries in their order.
pub proof fn lines_stand_in_order(a: Seq<EntryModel>, b: Seq<EntryModel>, e: EntryModel)
    ensures
        ndjson(a + b) == ndjson(a) + ndjson(b),
        ndjson(seq![e]) == json::members_printed(wire_members(e)) + "\n"@,
        ndjson(seq![]) == Seq::<char>::empty(),
    decreases b.len(),
{
    let one = seq![e];
    assert(one.drop_last() == Seq::<EntryModel>::empty());
    assert(ndjson(one.drop_last()) == Seq::<char>::empty());
    assert(Seq::<char>::empty() + json::members_printed(wire_members(e)) == json::members_printed(
        wire_members(e),
    ));
    if b.len() == 0 {
        assert(a + b == a);
        assert(ndjson(a) + ndjson(b) == ndjson(a));
    } else {
        lines_stand_in_order(a, b.drop_last(), e);
        assert((a + b).drop_last() == a + b.drop_last());
        let line = json::members_printed(wire_members(b.last()));
        assert(ndjson(a) + ndjson(b.drop_last()) + line + "\n"@ == ndjson(a) + (ndjson(
            b.drop_last(),
        ) + line + "\n"@));
    }
}

/// The line of row `i` stands behind the lines of the rows before it and in front of the lines of
/// those after it.
pub proof fn row_has_its_line(rows: Seq<EntryModel>, i: int)
    requires
        0 <= i < rows.len(),
    ensures
        ndjson(rows) == ndjson(rows.take(i)) + (json::members_printed(wire_members(rows[i]))
            + "\n"@) + ndjson(rows.skip(i + 1)),
{
    let front = rows.take(i);
    let back = rows.skip(i + 1);
    let one = seq![rows[i]];
    lines_stand_in_order(front, one, rows[i]);
    lines_stand_in_order(front + one, back, rows[i]);
    assert(front + one + back == rows);
}

/// An entry on the wire has six members: its four known fields, as texts or `null`, its other
/// members as an object, and its line.
pub proof fn entries_have_six_members(e: EntryModel)
    ensures
        ({
            let m = wire_members(e);
            &&& m.dom() == set!["timestamp"@, "level"@, "message"@, "tag"@, "fields"@, "raw"@]
            &&& m["timestamp"@] == match e.timestamp {
                Some(t) => Json::Text(t),
                None => Json::Null,
            }
            &&& m["level"@] == match e.level {
                Some(t) => Json::Text(t),
                None => Json::Null,
            }
            &&& m["message"@] == match e.message {
                Some(t) => Json::Text(t),
                None => Json::Null,
            }
            &&& m["tag"@] == match e.tag {
                Some(t) => Json::Text(t),
                None => Json::Null,
            }
            &&& m["fields"@] == Json::Object(e.fields)
            &&& m["raw"@] == Json::Text(e.raw)
        }),
{
    parser::known_keys_differ();
    reveal_strlit("timestamp");
    reveal_strlit("level");
    reveal_strlit("message");
    reveal_strlit("tag");
    reveal_strlit("fields");
    reveal_strlit("raw");
    assert("fields"@.len() == 6 && "raw"@.len() == 3 && "tag"@.len() == 3);
    assert("timestamp"@.len() == 9 && "level"@.len() == 5 && "message"@.len() == 7);
    assert("tag"@[0] == 't' && "raw"@[0] == 'r');
    assert(wire_members(e).dom() =~= set![
        "timestamp"@,
        "level"@,
        "message"@,
        "tag"@,
        "fields"@,
        "raw"@,
    ]);
}

/// Entries as lines of JSON, one for each.
pub fn ndjson_body(rows: &[LogEntry]) -> (r: String)
    ensures
        r@ == ndjson(executor::entry_models(rows@)),
        text::occurrences(r@, '\n') == rows@.len(),
{
    let ghost models = executor::entry_models(rows@);
    let mut body = String::new();
    let mut i: usize = 0;
    while i < rows.len()
        invariant
            i <= rows@.len(),
            models == executor::entry_models(rows@),
            body@ == ndjson(models.take(i as int)),
            text::occurrences(body@, '\n') == i,
        decreases rows@.len() - i,
    {
        let line = entry_to_json_string(&rows[i]);
        proof {
            assert(models.take(i + 1).drop_last() == models.take(i as int));
            text::occurrences_of_absent(line@, '\n', line@.len() as int);
            text::occurrences_add(body@, line@, '\n');
            text::occurrences_add(body@ + line@, "\n"@, '\n');
            reveal_strlit("\n");
            reveal_with_fuel(text::occurrences_before, 2);
        }
        body.append(line.as_str());
        body.append("\n");
        i = i + 1;
    }
    assert(models.take(i as int) == models);
    body
}

/// The response to a query: the entries as lines of JSON. That there are none is no error.
pub fn build_ndjson_response(rows: &[LogEntry]) -> (r: Reply)
    ensures
        r.status == 200,
        r.content_type@ == "application/x-ndjson"@,
        r.body@ == ndjson(executor::entry_models(rows@)),
        text::occurrences(r.body@, '\n') == rows@.len(),
{
    Reply {
        status: 200,
        content_type: "application/x-ndjson".to_owned(),
        body: ndjson_body(rows),
    }
}

// ---------------------------------------------------------------------------
// Statistics
// ---------------------------------------------------------------------------

/// The answer to a request for statistics.
#[derive(Debug, PartialEq, Eq)]
pub struct StatsResponse {
    pub entries: u64,
    pub min_timestamp: Option<String>,
    pub max_timestamp: Option<String>,
    /// The tags in use; untagged entries are `None`.
    pub tags: Vec<Option<String>>,
    pub db_size_bytes: u64,
    pub db_path: String,
}

/// The tags as JSON: a text each, and `null` for untagged.
pub open spec fn tags_json(tags: Seq<Option<Seq<char>>>) -> Json {
    Json::Array(tags.map_values(|t: Option<Seq<char>>| json::optional_text(t)))
}

/// The answer on the wire: an object with these members in this order.
pub open spec fn stats_json(s: StatsResponse) -> Seq<char> {
    "{\"entries\":"@ + text::decimal(s.entries as nat) + ",\"min_timestamp\":"@
        + json::value_printed(json::optional_text(json::text_view(s.min_timestamp)))
        + ",\"max_timestamp\":"@ + json::value_printed(
        json::optional_text(json::text_view(s.max_timestamp)),
    ) + ",\"tags\":"@ + json::value_printed(tags_json(store::text_views(s.tags@)))
        + ",\"db_size_bytes\":"@ + text::decimal(s.db_size_bytes as nat) + ",\"db_path\":"@
        + json::value_printed(Json::Text(s.db_path@)) + "}"@
}

/// The answer on the wire gives the count, the two bounds, the tags in their order, the size and
/// the path, each under its name.
pub proof fn statistics_stand_under_their_names(s: StatsResponse)
    ensures
        ({
            let bound = |t: Option<String>|
                json::value_printed(
                    match t {
                        Some(t) => Json::Text(t@),
                        None => Json::Null,
                    },
                );
            let tags = Seq::new(
                s.tags@.len(),
                |i: int|
                    match s.tags@[i] {
                        Some(t) => Json::Text(t@),
                        None => Json::Null,
                    },
            );
            stats_json(s) == "{\"entries\":"@ + text::decimal(s.entries as nat)
                + ",\"min_timestamp\":"@ + bound(s.min_timestamp) + ",\"max_timestamp\":"@ + bound(
                s.max_timestamp,
            ) + ",\"tags\":"@ + json::value_printed(Json::Array(tags)) + ",\"db_size_bytes\":"@
                + text::decimal(s.db_size_bytes as nat) + ",\"db_path\":"@ + json::value_printed(
                Json::Text(s.db_path@),
            ) + "}"@
        }),
{
    let tags = Seq::new(
        s.tags@.len(),
        |i: int|
            match s.tags@[i] {
                Some(t) => Json::Text(t@),
                None => Json::Null,
            },
    );
    let made = store::text_views(s.tags@).map_values(
        |t: Option<Seq<char>>| json::optional_text(t),
    );
    assert(made =~= tags);
}

fn tag_values(tags: &Vec<Option<String>>) -> (r: Vec<Value>)
    ensures
        Json::Array(json::jsons_of(r@)) == tags_json(store::text_views(tags@)),
{
    let mut values: Vec<Value> = Vec::new();
    let mut i: usize = 0;
    while i < tags.len()
        invariant
            i <= tags@.len(),
            values@.len() == i,
            forall|j: int|
                0 <= j < i ==> json::json_of(#[trigger] values@[j]) == json::optional_text(
                    json::text_view(tags@[j]),
                ),
        decreases tags@.len() - i,
    {
        values.push(json::text_value(tags[i].clone()));
        i = i + 1;
    }
    assert(json::jsons_of(values@) =~= store::text_views(tags@).map_values(
        |t: Option<Seq<char>>| json::optional_text(t),
    ));
    values
}

impl StatsResponse {
    /// The statistics of an index with the path and the size of its file.
    pub fn from_core(stats: Stats, db_path: String, db_size_bytes: u64) -> (r: StatsResponse)
        ensures
            r == (StatsResponse {
                entries: stats.entries,
                min_timestamp: stats.min_timestamp,
                max_timestamp: stats.max_timestamp,
                tags: stats.tags,
                db_size_bytes,
                db_path,
            }),
    {
        StatsResponse {
            entries: stats.entries,
            min_timestamp: stats.min_timestamp,
            max_timestamp: stats.max_timestamp,
            tags: stats.tags,
            db_size_bytes,
            db_path,
        }
    }

    /// The answer as JSON.
    pub fn to_json_string(&self) -> (r: String)
        ensures
            r@ == stats_json(*self),
    {
        let mut r = "{\"entries\":".to_owned();
        r.append(decimal_text(self.entries).as_str());
        r.append(",\"min_timestamp\":");
        r.append(json::print_value(&json::text_value(self.min_timestamp.clone())).as_str());
        r.append(",\"max_timestamp\":");
        r.append(json::print_value(&json::text_value(self.max_timestamp.clone())).as_str());
        r.append(",\"tags\":");
        r.append(json::print_value(&json::array_value(tag_values(&self.tags))).as_str());
        r.append(",\"db_size_bytes\":");
        r.append(decimal_text(self.db_size_bytes).as_str());
        r.append(",\"db_path\":");
        r.append(json::print_value(&json::text_value(Some(self.db_path.clone()))).as_str());
        r.append("}");
        r
    }

    /// The response to a request for statistics.
    pub fn into_reply(self) -> (r: Reply)
        ensures
            r.status == 200,
            r.content_type@ == "application/json"@,
            r.body@ == stats_json(self),
    {
        Reply {
            status: 200,
            content_type: "application/json".to_owned(),
            body: self.to_json_string(),
        }
    }
}

/// The response to a request for what the server can do: its version, the formats of logs that
/// it was built for, and the names of its endpoints.
pub fn version_reply() -> (r: Reply)
    ensures
        r.status == 200,
        r.content_type@ == "application/json"@,
        r.body@
            == "{\"version\":\"0.1.0\",\"formats\":[\"json\"],\"capabilities\":[\"query\",\"stats\",\"version\"]}"@,
{
    Reply {
        status: 200,
        content_type: "application/json".to_owned(),
        body:
            "{\"version\":\"0.1.0\",\"formats\":[\"json\"],\"capabilities\":[\"query\",\"stats\",\"version\"]}".to_owned(),
    }
}

} // verus!
